//! Resuming a stored session with its provider.

use vstd::prelude::*;

use crate::config::model::opt_view;
use crate::json::JsonValue;
use crate::session::{SessionSummary, fallback_session_uuid, session_uuid_from_value, uuid_of_entry, uuid_from_file_name};
use crate::text::{string_views};

verus! {

/// The provider arguments that resume a session, and its resume token.
#[derive(Debug)]
pub struct ResumePlan {
    pub args: Vec<String>,
    pub resume_token: Option<String>,
}

/// The UUID of the first record that names one.
pub open spec fn first_uuid(records: Seq<JsonValue>) -> Option<Seq<char>>
    decreases records.len(),
{
    if records.len() == 0 {
        None
    } else if uuid_of_entry(records[0]) is Some {
        uuid_of_entry(records[0])
    } else {
        first_uuid(records.drop_first())
    }
}

/// The UUID a log file name implies.
pub open spec fn path_uuid(path: Seq<char>) -> Option<Seq<char>> {
    crate::indexer::path_uuid(path)
}

/// `extract_session_uuid`: from the parsed records at the start of the log (the
/// first 256 lines; `None` when the log cannot be opened), else from the file
/// name.
#[verifier::loop_isolation(false)]
pub fn extract_session_uuid(records: Option<&Vec<JsonValue>>, path: &str) -> (r: Option<String>)
    ensures
        opt_view(r) == match records {
            Some(rs) => match first_uuid(rs@) {
                Some(u) => Some(u),
                None => path_uuid(path@),
            },
            None => path_uuid(path@),
        },
{
    if let Some(rs) = records {
        let mut i: usize = 0;
        assert(rs@.subrange(0, rs@.len() as int) =~= rs@);
        while i < rs.len()
            invariant
                i <= rs.len(),
                first_uuid(rs@) == first_uuid(rs@.subrange(i as int, rs@.len() as int)),
            decreases rs.len() - i,
        {
            let ghost rest = rs@.subrange(i as int, rs@.len() as int);
            assert(rest[0] == rs@[i as int]);
            assert(rest.drop_first() =~= rs@.subrange(i + 1, rs@.len() as int));
            if let Some(u) = session_uuid_from_value(&rs[i]) {
                return Some(u);
            }
            i += 1;
        }
        assert(rs@.subrange(rs@.len() as int, rs@.len() as int) =~= Seq::<JsonValue>::empty());
    }
    fallback_session_uuid(path)
}

/// The Codex resume arguments: `-m MODEL` when the session recorded a model,
/// then `resume UUID`.
pub open spec fn codex_resume_args(model: Option<Seq<char>>, uuid: Seq<char>) -> Seq<Seq<char>> {
    match model {
        Some(m) => seq!["-m"@, m, "resume"@, uuid],
        None => seq!["resume"@, uuid],
    }
}

/// `codex::resume_info`: with the session's UUID (stored, else `extracted`
/// from its log), the arguments that resume it.
pub fn codex_resume_info(summary: &SessionSummary, extracted: Option<String>) -> (r: Option<ResumePlan>)
    ensures
        match (if summary.uuid is Some { opt_view(summary.uuid) } else { opt_view(extracted) }) {
            Some(u) => r matches Some(p) && string_views(p.args@) == codex_resume_args(opt_view(summary.model), u)
                && opt_view(p.resume_token) == Some(u),
            None => r is None,
        },
{
    let uuid = match &summary.uuid {
        Some(u) => Some(u.clone()),
        None => extracted,
    };
    let uuid = match uuid {
        Some(u) => u,
        None => return None,
    };
    let mut args: Vec<String> = Vec::new();
    if let Some(model) = &summary.model {
        args.push("-m".to_owned());
        args.push(model.clone());
    }
    args.push("resume".to_owned());
    args.push(uuid.clone());
    assert(string_views(args@) =~= codex_resume_args(opt_view(summary.model), uuid@));
    Some(ResumePlan { args, resume_token: Some(uuid) })
}

/// `resume_info`: the resume plan for a stored session; only Codex sessions
/// have one.
pub fn resume_info(summary: &SessionSummary, extracted: Option<String>) -> (r: Option<ResumePlan>)
    ensures
        summary.provider@ != "codex"@ ==> r is None,
        summary.provider@ == "codex"@ ==> match (if summary.uuid is Some { opt_view(summary.uuid) } else { opt_view(extracted) }) {
            Some(u) => r matches Some(p) && string_views(p.args@) == codex_resume_args(opt_view(summary.model), u)
                && opt_view(p.resume_token) == Some(u),
            None => r is None,
        },
{
    if crate::text::eq_str(&summary.provider, "codex") {
        codex_resume_info(summary, extracted)
    } else {
        None
    }
}

} // verus!
