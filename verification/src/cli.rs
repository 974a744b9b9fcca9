//! The command line: `tx [--config-dir DIR] [-v…] [-q] <command> …`.

use vstd::prelude::*;

use crate::config::model::opt_view;
use crate::indexer::pair_views;
use crate::text::{
    append_chars, append_str, chars_of, lower_seq, split_once, split_once_chars, starts_with,
    str_chars, string_of, string_views,
};

verus! {

// ---------------------------------------------------------------------------
// Errors
// ---------------------------------------------------------------------------

/// A command line that could not be parsed, with the message shown for it.
#[derive(Debug)]
pub struct CliError {
    pub message: String,
}

impl CliError {
    /// The message, as `Display` would show it.
    pub fn to_string(&self) -> (r: String)
        ensures
            r@ == self.message@,
    {
        self.message.clone()
    }
}

fn cli_error(parts: Vec<char>) -> (r: CliError)
    ensures
        r.message@ == parts@,
{
    CliError { message: string_of(&parts) }
}

// ---------------------------------------------------------------------------
// Decimal integers (`str::parse`)
// ---------------------------------------------------------------------------

/// Why a decimal integer did not parse (`std::num::IntErrorKind`).
#[derive(Debug, Clone, Copy, PartialEq, Eq, Structural)]
pub enum IntError {
    Empty,
    InvalidDigit,
    PosOverflow,
    NegOverflow,
}

impl IntError {
    /// The message `ParseIntError` displays.
    pub fn message(self) -> (r: String)
        ensures
            r@ == int_error_text(self),
    {
        match self {
            IntError::Empty => "cannot parse integer from empty string".to_owned(),
            IntError::InvalidDigit => "invalid digit found in string".to_owned(),
            IntError::PosOverflow => "number too large to fit in target type".to_owned(),
            IntError::NegOverflow => "number too small to fit in target type".to_owned(),
        }
    }
}

pub open spec fn int_error_text(e: IntError) -> Seq<char> {
    match e {
        IntError::Empty => "cannot parse integer from empty string"@,
        IntError::InvalidDigit => "invalid digit found in string"@,
        IntError::PosOverflow => "number too large to fit in target type"@,
        IntError::NegOverflow => "number too small to fit in target type"@,
    }
}

pub open spec fn is_digit(c: char) -> bool {
    '0' <= c && c <= '9'
}

pub open spec fn digit_value(c: char) -> nat {
    ((c as u32) - ('0' as u32)) as nat
}

/// Digits read left to right into a value that may not exceed `max`.
pub open spec fn digits_value(s: Seq<char>, n: int, max: nat) -> Result<nat, IntError>
    decreases n,
{
    if n <= 0 || n > s.len() {
        Ok(0)
    } else {
        match digits_value(s, n - 1, max) {
            Err(e) => Err(e),
            Ok(acc) => if !is_digit(s[n - 1]) {
                Err(IntError::InvalidDigit)
            } else if acc * 10 + digit_value(s[n - 1]) > max {
                Err(IntError::PosOverflow)
            } else {
                Ok(acc * 10 + digit_value(s[n - 1]))
            },
        }
    }
}

/// `str::parse` for an unsigned type whose largest value is `max`.
pub open spec fn unsigned_of(s: Seq<char>, max: nat) -> Result<nat, IntError> {
    if s.len() == 0 {
        Err(IntError::Empty)
    } else {
        let d = if s[0] == '+' {
            s.drop_first()
        } else {
            s
        };
        if d.len() == 0 {
            Err(IntError::InvalidDigit)
        } else {
            digits_value(d, d.len() as int, max)
        }
    }
}

/// `str::parse::<i64>`.
pub open spec fn i64_of(s: Seq<char>) -> Result<int, IntError> {
    if s.len() > 0 && s[0] == '-' {
        let d = s.drop_first();
        if d.len() == 0 {
            Err(IntError::InvalidDigit)
        } else {
            match digits_value(d, d.len() as int, 0x8000_0000_0000_0000) {
                Ok(v) => Ok(-v),
                Err(IntError::PosOverflow) => Err(IntError::NegOverflow),
                Err(e) => Err(e),
            }
        }
    } else {
        match unsigned_of(s, 0x7fff_ffff_ffff_ffff) {
            Ok(v) => Ok(v as int),
            Err(e) => Err(e),
        }
    }
}

fn digits_exec(d: &Vec<char>, max: u64) -> (r: Result<u64, IntError>)
    ensures
        match r {
            Ok(v) => digits_value(d@, d@.len() as int, max as nat) == Ok::<nat, IntError>(v as nat),
            Err(e) => digits_value(d@, d@.len() as int, max as nat) == Err::<nat, IntError>(e),
        },
{
    let mut acc: u64 = 0;
    let mut i: usize = 0;
    while i < d.len()
        invariant
            i <= d.len(),
            acc <= max,
            digits_value(d@, i as int, max as nat) == Ok::<nat, IntError>(acc as nat),
        decreases d.len() - i,
    {
        let c = d[i];
        if !('0' <= c && c <= '9') {
            proof { lemma_digits_err_stays(d@, i as int + 1, max as nat); }
            return Err(IntError::InvalidDigit);
        }
        let dv: u64 = ((c as u32) - ('0' as u32)) as u64;
        let wide: u128 = (acc as u128) * 10 + (dv as u128);
        if wide > max as u128 {
            proof { lemma_digits_err_stays(d@, i as int + 1, max as nat); }
            return Err(IntError::PosOverflow);
        }
        acc = wide as u64;
        i += 1;
    }
    Ok(acc)
}

proof fn lemma_digits_err_stays(s: Seq<char>, n: int, max: nat)
    requires
        0 <= n <= s.len(),
        digits_value(s, n, max) is Err,
    ensures
        digits_value(s, s.len() as int, max) == digits_value(s, n, max),
    decreases s.len() - n,
{
    if n < s.len() {
        lemma_digits_err_stays(s, n + 1, max);
    }
}

/// `str::parse::<usize>` (on a 64-bit or smaller target).
pub fn parse_usize(raw: &str) -> (r: Result<usize, IntError>)
    ensures
        match r {
            Ok(v) => unsigned_of(raw@, usize::MAX as nat) == Ok::<nat, IntError>(v as nat),
            Err(e) => unsigned_of(raw@, usize::MAX as nat) == Err::<nat, IntError>(e),
        },
{
    let s = chars_of(raw);
    if s.len() == 0 {
        return Err(IntError::Empty);
    }
    let d = if s[0] == '+' {
        crate::text::slice_chars(&s, 1, s.len())
    } else {
        s
    };
    assert(s@[0] == '+' ==> d@ =~= s@.drop_first());
    if d.len() == 0 {
        return Err(IntError::InvalidDigit);
    }
    match digits_exec(&d, usize::MAX as u64) {
        Ok(v) => Ok(v as usize),
        Err(e) => Err(e),
    }
}

/// `str::parse::<u64>`.
pub fn parse_u64(raw: &str) -> (r: Result<u64, IntError>)
    ensures
        match r {
            Ok(v) => unsigned_of(raw@, u64::MAX as nat) == Ok::<nat, IntError>(v as nat),
            Err(e) => unsigned_of(raw@, u64::MAX as nat) == Err::<nat, IntError>(e),
        },
{
    let s = chars_of(raw);
    if s.len() == 0 {
        return Err(IntError::Empty);
    }
    let d = if s[0] == '+' {
        crate::text::slice_chars(&s, 1, s.len())
    } else {
        s
    };
    assert(s@[0] == '+' ==> d@ =~= s@.drop_first());
    if d.len() == 0 {
        return Err(IntError::InvalidDigit);
    }
    digits_exec(&d, u64::MAX)
}

/// `str::parse::<i64>`.
pub fn parse_i64(raw: &str) -> (r: Result<i64, IntError>)
    ensures
        match r {
            Ok(v) => i64_of(raw@) == Ok::<int, IntError>(v as int),
            Err(e) => i64_of(raw@) == Err::<int, IntError>(e),
        },
{
    let s = chars_of(raw);
    if s.len() > 0 && s[0] == '-' {
        let d = crate::text::slice_chars(&s, 1, s.len());
        assert(d@ =~= s@.drop_first());
        if d.len() == 0 {
            return Err(IntError::InvalidDigit);
        }
        return match digits_exec(&d, 0x8000_0000_0000_0000u64) {
            Ok(v) => {
                if v == 0x8000_0000_0000_0000u64 {
                    Ok(i64::MIN)
                } else {
                    Ok(-(v as i64))
                }
            },
            Err(IntError::PosOverflow) => Err(IntError::NegOverflow),
            Err(e) => Err(e),
        };
    }
    if s.len() == 0 {
        return Err(IntError::Empty);
    }
    let d = if s[0] == '+' {
        crate::text::slice_chars(&s, 1, s.len())
    } else {
        s
    };
    assert(s@[0] == '+' ==> d@ =~= s@.drop_first());
    if d.len() == 0 {
        return Err(IntError::InvalidDigit);
    }
    match digits_exec(&d, 0x7fff_ffff_ffff_ffffu64) {
        Ok(v) => Ok(v as i64),
        Err(e) => Err(e),
    }
}


// ---------------------------------------------------------------------------
// Options and positional arguments
// ---------------------------------------------------------------------------

/// What a scan of the arguments found: each flag occurrence (by long name), each
/// option value (long name and value), the positional arguments, and the
/// arguments after `--` (for commands that take them).
#[verifier::ext_equal]
pub struct ScanView {
    pub flags: Seq<Seq<char>>,
    pub values: Seq<(Seq<char>, Seq<char>)>,
    pub positionals: Seq<Seq<char>>,
    pub trailing: Seq<Seq<char>>,
}

#[derive(Debug)]
pub struct Scan {
    pub flags: Vec<String>,
    pub values: Vec<(String, String)>,
    pub positionals: Vec<String>,
    pub trailing: Vec<String>,
}

pub open spec fn scan_view(s: Scan) -> ScanView {
    ScanView {
        flags: string_views(s.flags@),
        values: pair_views(s.values@),
        positionals: string_views(s.positionals@),
        trailing: string_views(s.trailing@),
    }
}

/// The long name of the option `name`, if `defs` has it, and whether it takes a
/// value. `verbose` and `quiet` are flags everywhere.
pub open spec fn def_of(defs: Seq<(Seq<char>, bool)>, name: Seq<char>) -> Option<bool>
    decreases defs.len(),
{
    if name == "verbose"@ || name == "quiet"@ {
        Some(false)
    } else if defs.len() == 0 {
        None
    } else if defs[0].0 == name {
        Some(defs[0].1)
    } else {
        def_of(defs.drop_first(), name)
    }
}

/// The long names a cluster of short flags stands for (`-v` is `verbose`, `-q`
/// is `quiet`), or `None` when it holds another letter.
pub open spec fn shorts_of(s: Seq<char>) -> Option<Seq<Seq<char>>>
    decreases s.len(),
{
    if s.len() == 0 {
        Some(Seq::empty())
    } else {
        match shorts_of(s.drop_last()) {
            None => None,
            Some(names) => if s.last() == 'v' {
                Some(names.push("verbose"@))
            } else if s.last() == 'q' {
                Some(names.push("quiet"@))
            } else {
                None
            },
        }
    }
}

pub open spec fn unexpected_text(t: Seq<char>) -> Seq<char> {
    "error: unexpected argument '"@ + t + "' found"@
}

/// The scan from argument `i` on, given what was found before it. With `stop`,
/// the scan ends at the first positional argument (a subcommand) and reports
/// where; otherwise it reads to the end. With `trailing_ok`, arguments after `--`
/// are kept apart; otherwise they count as positional.
pub open spec fn scan_from(
    toks: Seq<Seq<char>>,
    i: int,
    acc: ScanView,
    defs: Seq<(Seq<char>, bool)>,
    trailing_ok: bool,
    stop: bool,
) -> Result<(ScanView, int), Seq<char>>
    decreases toks.len() - i,
{
    if i < 0 || i >= toks.len() {
        Ok((acc, toks.len() as int))
    } else {
        let t = toks[i];
        if t == "--"@ {
            let rest = toks.subrange(i + 1, toks.len() as int);
            if trailing_ok {
                Ok((ScanView { trailing: acc.trailing + rest, ..acc }, toks.len() as int))
            } else {
                Ok((ScanView { positionals: acc.positionals + rest, ..acc }, toks.len() as int))
            }
        } else if t.len() > 2 && starts_with(t, "--"@) {
            let body = t.subrange(2, t.len() as int);
            let (name, inline) = match split_once(body, '=') {
                Some((n, v)) => (n, Some(v)),
                None => (body, None::<Seq<char>>),
            };
            match def_of(defs, name) {
                None => Err(unexpected_text(t)),
                Some(true) => match inline {
                    Some(v) => scan_from(toks, i + 1, ScanView { values: acc.values.push((name, v)), ..acc }, defs, trailing_ok, stop),
                    None => if i + 1 < toks.len() {
                        scan_from(toks, i + 2, ScanView { values: acc.values.push((name, toks[i + 1])), ..acc }, defs, trailing_ok, stop)
                    } else {
                        Err("error: a value is required for '--"@ + name + " <VALUE>' but none was supplied"@)
                    },
                },
                Some(false) => match inline {
                    Some(v) => Err("error: unexpected value '"@ + v + "' for '--"@ + name + "' found; no more were expected"@),
                    None => scan_from(toks, i + 1, ScanView { flags: acc.flags.push(name), ..acc }, defs, trailing_ok, stop),
                },
            }
        } else if t.len() > 1 && t[0] == '-' {
            match shorts_of(t.drop_first()) {
                None => Err(unexpected_text(t)),
                Some(names) => scan_from(toks, i + 1, ScanView { flags: acc.flags + names, ..acc }, defs, trailing_ok, stop),
            }
        } else if stop {
            Ok((acc, i))
        } else {
            scan_from(toks, i + 1, ScanView { positionals: acc.positionals.push(t), ..acc }, defs, trailing_ok, stop)
        }
    }
}

pub open spec fn empty_scan() -> ScanView {
    ScanView { flags: Seq::empty(), values: Seq::empty(), positionals: Seq::empty(), trailing: Seq::empty() }
}

fn def_lookup(defs: &Vec<(String, bool)>, name: &Vec<char>) -> (r: Option<bool>)
    ensures
        r == def_of(pair_bool_views(defs@), name@),
{
    proof {
        reveal_strlit("verbose");
        reveal_strlit("quiet");
    }
    if crate::text::eq_chars(name, &chars_of("verbose")) || crate::text::eq_chars(name, &chars_of("quiet")) {
        return Some(false);
    }
    let ghost all = pair_bool_views(defs@);
    let mut i: usize = 0;
    assert(all.subrange(0, all.len() as int) =~= all);
    while i < defs.len()
        invariant
            i <= defs.len(),
            all == pair_bool_views(defs@),
            name@ != "verbose"@ && name@ != "quiet"@,
            def_of(all, name@) == def_of(all.subrange(i as int, all.len() as int), name@),
        decreases defs.len() - i,
    {
        let ghost rest = all.subrange(i as int, all.len() as int);
        assert(rest[0] == (defs@[i as int].0@, defs@[i as int].1));
        assert(rest.drop_first() =~= all.subrange(i + 1, all.len() as int));
        if crate::text::eq_chars(&str_chars(&defs[i].0), name) {
            return Some(defs[i].1);
        }
        i += 1;
    }
    None
}

pub open spec fn pair_bool_views(v: Seq<(String, bool)>) -> Seq<(Seq<char>, bool)> {
    Seq::new(v.len(), |i: int| (v[i].0@, v[i].1))
}

fn shorts_exec(s: &Vec<char>) -> (r: Option<Vec<String>>)
    ensures
        match r {
            Some(v) => shorts_of(s@) == Some(string_views(v@)),
            None => shorts_of(s@) is None,
        },
{
    let mut out: Vec<String> = Vec::new();
    let mut i: usize = 0;
    assert(string_views(out@) =~= Seq::<Seq<char>>::empty());
    assert(s@.subrange(0, 0) =~= Seq::<char>::empty());
    while i < s.len()
        invariant
            i <= s.len(),
            shorts_of(s@.subrange(0, i as int)) == Some(string_views(out@)),
        decreases s.len() - i,
    {
        assert(s@.subrange(0, i + 1).drop_last() =~= s@.subrange(0, i as int));
        let ghost before = out@;
        if s[i] == 'v' {
            out.push("verbose".to_owned());
        } else if s[i] == 'q' {
            out.push("quiet".to_owned());
        } else {
            proof { lemma_shorts_none_stays(s@, i as int + 1); }
            return None;
        }
        assert(string_views(out@) =~= string_views(before).push(out@.last()@));
        i += 1;
    }
    assert(s@.subrange(0, s@.len() as int) =~= s@);
    Some(out)
}

proof fn lemma_shorts_none_stays(s: Seq<char>, n: int)
    requires
        0 <= n <= s.len(),
        shorts_of(s.subrange(0, n)) is None,
    ensures
        shorts_of(s) is None,
    decreases s.len() - n,
{
    if n < s.len() {
        assert(s.subrange(0, n + 1).drop_last() =~= s.subrange(0, n));
        lemma_shorts_none_stays(s, n + 1);
    } else {
        assert(s.subrange(0, n) =~= s);
    }
}

fn push_all(out: &mut Vec<String>, toks: &Vec<String>, from: usize)
    requires
        from <= toks.len(),
    ensures
        string_views(final(out)@) == string_views(old(out)@) + string_views(toks@).subrange(from as int, toks@.len() as int),
{
    let ghost start = string_views(out@);
    let mut i: usize = from;
    while i < toks.len()
        invariant
            from <= i <= toks.len(),
            string_views(out@) == start + string_views(toks@).subrange(from as int, i as int),
        decreases toks.len() - i,
    {
        let ghost before = out@;
        out.push(toks[i].clone());
        assert(string_views(out@) =~= string_views(before).push(toks@[i as int]@));
        assert(string_views(toks@).subrange(from as int, i + 1) =~= string_views(toks@).subrange(from as int, i as int).push(toks@[i as int]@));
        i += 1;
    }
}

/// Scan `toks` from `start` (see `scan_from`); on success, the scan and the
/// index where it stopped.
pub fn scan_args(
    toks: &Vec<String>,
    start: usize,
    defs: &Vec<(String, bool)>,
    trailing_ok: bool,
    stop: bool,
) -> (r: Result<(Scan, usize), CliError>)
    requires
        start <= toks.len(),
    ensures
        match r {
            Ok((sc, next)) => scan_from(string_views(toks@), start as int, empty_scan(), pair_bool_views(defs@), trailing_ok, stop)
                == Ok::<(ScanView, int), Seq<char>>((scan_view(sc), next as int)),
            Err(e) => scan_from(string_views(toks@), start as int, empty_scan(), pair_bool_views(defs@), trailing_ok, stop)
                == Err::<(ScanView, int), Seq<char>>(e.message@),
        },
        r matches Ok((_, next)) ==> next <= toks.len(),
{
    let ghost tv = string_views(toks@);
    let ghost dv = pair_bool_views(defs@);
    let mut sc = Scan { flags: Vec::new(), values: Vec::new(), positionals: Vec::new(), trailing: Vec::new() };
    assert(scan_view(sc) =~= empty_scan());
    let mut i: usize = start;
    proof {
        reveal_strlit("--");
        reveal_strlit("=");
    }
    while i < toks.len()
        invariant
            start <= i <= toks.len() + 1,
            tv == string_views(toks@),
            dv == pair_bool_views(defs@),
            scan_from(tv, start as int, empty_scan(), dv, trailing_ok, stop) == scan_from(tv, i as int, scan_view(sc), dv, trailing_ok, stop),
        decreases toks.len() + 1 - i,
    {
        proof {
            reveal_strlit("--");
            reveal_strlit("=");
        }
        let t = str_chars(&toks[i]);
        assert(tv[i as int] == t@);
        let ghost acc = scan_view(sc);
        assert(starts_with(t@, "--"@) ==> t@[0] == '-' && t@[1] == '-') by {
            if starts_with(t@, "--"@) {
                assert(t@.subrange(0, 2)[0] == t@[0]);
                assert(t@.subrange(0, 2)[1] == t@[1]);
            }
        }
        if t.len() == 2 && t[0] == '-' && t[1] == '-' {
            assert(t@ =~= "--"@);
            if trailing_ok {
                push_all(&mut sc.trailing, toks, i + 1);
            } else {
                push_all(&mut sc.positionals, toks, i + 1);
            }
            assert(scan_view(sc) =~= if trailing_ok {
                ScanView { trailing: acc.trailing + tv.subrange(i + 1, tv.len() as int), ..acc }
            } else {
                ScanView { positionals: acc.positionals + tv.subrange(i + 1, tv.len() as int), ..acc }
            });
            return Ok((sc, toks.len()));
        }
        assert(t@ != "--"@ ==> !(t@.len() == 2 && t@[0] == '-' && t@[1] == '-'));
        if t.len() > 2 && t[0] == '-' && t[1] == '-' {
            assert(starts_with(t@, "--"@)) by {
                assert(t@.subrange(0, 2) =~= "--"@);
            }
            let body = crate::text::slice_chars(&t, 2, t.len());
            let (name, inline): (Vec<char>, Option<Vec<char>>) = match split_once_chars(&body, '=') {
                Some((n, v)) => (n, Some(v)),
                None => (body, None),
            };
            match def_lookup(defs, &name) {
                None => {
                    let mut m = chars_of("error: unexpected argument '");
                    append_chars(&mut m, &t);
                    append_str(&mut m, "' found");
                    return Err(cli_error(m));
                },
                Some(true) => {
                    match inline {
                        Some(v) => {
                            let ghost before = sc.values@;
                            sc.values.push((string_of(&name), string_of(&v)));
                            assert(pair_views(sc.values@) =~= pair_views(before).push((name@, v@)));
                            i += 1;
                        },
                        None => {
                            if i + 1 < toks.len() {
                                let ghost before = sc.values@;
                                sc.values.push((string_of(&name), toks[i + 1].clone()));
                                assert(pair_views(sc.values@) =~= pair_views(before).push((name@, tv[i + 1])));
                                i += 2;
                            } else {
                                let mut m = chars_of("error: a value is required for '--");
                                append_chars(&mut m, &name);
                                append_str(&mut m, " <VALUE>' but none was supplied");
                                return Err(cli_error(m));
                            }
                        },
                    }
                },
                Some(false) => {
                    match inline {
                        Some(v) => {
                            let mut m = chars_of("error: unexpected value '");
                            append_chars(&mut m, &v);
                            append_str(&mut m, "' for '--");
                            append_chars(&mut m, &name);
                            append_str(&mut m, "' found; no more were expected");
                            return Err(cli_error(m));
                        },
                        None => {
                            let ghost before = sc.flags@;
                            sc.flags.push(string_of(&name));
                            assert(string_views(sc.flags@) =~= string_views(before).push(name@));
                            i += 1;
                        },
                    }
                },
            }
        } else if t.len() > 1 && t[0] == '-' {
            let rest = crate::text::slice_chars(&t, 1, t.len());
            assert(rest@ =~= t@.drop_first());
            match shorts_exec(&rest) {
                None => {
                    let mut m = chars_of("error: unexpected argument '");
                    append_chars(&mut m, &t);
                    append_str(&mut m, "' found");
                    return Err(cli_error(m));
                },
                Some(names) => {
                    let ghost before = string_views(sc.flags@);
                    let n0 = names.len();
                    append_string_vec(&mut sc.flags, &names);
                    i += 1;
                },
            }
        } else {
            if stop {
                return Ok((sc, i));
            }
            let ghost before = sc.positionals@;
            sc.positionals.push(toks[i].clone());
            assert(string_views(sc.positionals@) =~= string_views(before).push(tv[i as int]));
            i += 1;
        }
    }
    Ok((sc, toks.len()))
}

fn append_string_vec(out: &mut Vec<String>, more: &Vec<String>)
    ensures
        string_views(final(out)@) == string_views(old(out)@) + string_views(more@),
{
    push_all(out, more, 0);
    assert(string_views(more@).subrange(0, more@.len() as int) =~= string_views(more@));
}


// ---------------------------------------------------------------------------
// Reading options out of a scan
// ---------------------------------------------------------------------------

/// How often a flag was given.
pub open spec fn count_name(names: Seq<Seq<char>>, name: Seq<char>) -> nat
    decreases names.len(),
{
    if names.len() == 0 {
        0
    } else {
        count_name(names.drop_last(), name) + if names.last() == name {
            1nat
        } else {
            0nat
        }
    }
}

/// The values given for an option, in order.
pub open spec fn values_named(vals: Seq<(Seq<char>, Seq<char>)>, name: Seq<char>) -> Seq<Seq<char>>
    decreases vals.len(),
{
    if vals.len() == 0 {
        Seq::empty()
    } else {
        let r = values_named(vals.drop_last(), name);
        if vals.last().0 == name {
            r.push(vals.last().1)
        } else {
            r
        }
    }
}

/// The value of a single-valued option, if given.
pub open spec fn single(sv: ScanView, name: Seq<char>) -> Option<Seq<char>> {
    let vs = values_named(sv.values, name);
    if vs.len() > 0 {
        Some(vs[0])
    } else {
        None
    }
}

/// A single-valued option or a flag may be given at most once.
pub open spec fn once(sv: ScanView, name: Seq<char>) -> bool {
    values_named(sv.values, name).len() <= 1 && count_name(sv.flags, name) <= 1
}

pub open spec fn flag(sv: ScanView, name: Seq<char>) -> bool {
    count_name(sv.flags, name) >= 1
}

fn count_flag(sc: &Scan, name: &str) -> (r: usize)
    ensures
        r == count_name(scan_view(*sc).flags, name@),
{
    let ghost fv = string_views(sc.flags@);
    let mut n: usize = 0;
    let mut i: usize = 0;
    while i < sc.flags.len()
        invariant
            i <= sc.flags.len(),
            fv == string_views(sc.flags@),
            n == count_name(fv.subrange(0, i as int), name@),
            n <= i,
        decreases sc.flags.len() - i,
    {
        assert(fv.subrange(0, i + 1).drop_last() =~= fv.subrange(0, i as int));
        assert(fv.subrange(0, i + 1).last() == sc.flags@[i as int]@);
        if crate::text::eq_str(&sc.flags[i], name) {
            n = n + 1;
        }
        i += 1;
    }
    assert(fv.subrange(0, sc.flags@.len() as int) =~= fv);
    n
}

fn named_values(sc: &Scan, name: &str) -> (r: Vec<String>)
    ensures
        string_views(r@) == values_named(scan_view(*sc).values, name@),
{
    let ghost vv = pair_views(sc.values@);
    let mut out: Vec<String> = Vec::new();
    let mut i: usize = 0;
    assert(string_views(out@) =~= Seq::<Seq<char>>::empty());
    while i < sc.values.len()
        invariant
            i <= sc.values.len(),
            vv == pair_views(sc.values@),
            string_views(out@) == values_named(vv.subrange(0, i as int), name@),
        decreases sc.values.len() - i,
    {
        assert(vv.subrange(0, i + 1).drop_last() =~= vv.subrange(0, i as int));
        assert(vv.subrange(0, i + 1).last() == (sc.values@[i as int].0@, sc.values@[i as int].1@));
        if crate::text::eq_str(&sc.values[i].0, name) {
            let ghost before = out@;
            out.push(sc.values[i].1.clone());
            assert(string_views(out@) =~= string_views(before).push(sc.values@[i as int].1@));
        }
        i += 1;
    }
    assert(vv.subrange(0, sc.values@.len() as int) =~= vv);
    out
}

/// The error for an option given more than once.
pub open spec fn repeated_text(name: Seq<char>) -> Seq<char> {
    "error: the argument '--"@ + name + "' cannot be used multiple times"@
}

/// The error for an option value that does not parse.
pub open spec fn invalid_text(raw: Seq<char>, name: Seq<char>, msg: Seq<char>) -> Seq<char> {
    "error: invalid value '"@ + raw + "' for '--"@ + name + "': "@ + msg
}

/// The error for a missing required argument.
pub open spec fn missing_text(what: Seq<char>) -> Seq<char> {
    "error: the following required arguments were not provided: "@ + what
}

/// Why a value does not parse as its kind, if it does not.
pub open spec fn value_err(v: Seq<char>, kind: ValueKind) -> Option<Seq<char>> {
    match kind {
        ValueKind::Text => None,
        ValueKind::Int64 => match i64_of(v) {
            Err(e) => Some(int_error_text(e)),
            Ok(_) => None,
        },
        ValueKind::Size => match unsigned_of(v, usize::MAX as nat) {
            Err(e) => Some(int_error_text(e)),
            Ok(_) => None,
        },
        ValueKind::Positive => match positive_of(v) {
            Err(m) => Some(m),
            Ok(_) => None,
        },
        ValueKind::Role => match role_of(v) {
            Err(m) => Some(m),
            Ok(_) => None,
        },
        ValueKind::Since => match since_of(v) {
            Err(m) => Some(m),
            Ok(_) => None,
        },
    }
}

/// The error for option `name`, if it is given twice or its value does not parse.
pub open spec fn opt_err(sv: ScanView, name: Seq<char>, kind: ValueKind) -> Option<Seq<char>> {
    if !once(sv, name) {
        Some(repeated_text(name))
    } else {
        match single(sv, name) {
            Some(v) => match value_err(v, kind) {
                Some(m) => Some(invalid_text(v, name, m)),
                None => None,
            },
            None => None,
        }
    }
}

/// The error for positional arguments past the first `max`.
pub open spec fn positional_err(sv: ScanView, max: int) -> Option<Seq<char>> {
    if sv.positionals.len() > max {
        Some("error: unexpected argument '"@ + sv.positionals[max] + "' found"@)
    } else {
        None
    }
}

/// The first error of a list of checks made in order.
pub open spec fn first_err(a: Option<Seq<char>>, b: Option<Seq<char>>) -> Option<Seq<char>> {
    if a is Some {
        a
    } else {
        b
    }
}

fn repeated_error(name: &str) -> (r: CliError)
    ensures
        r.message@ == repeated_text(name@),
{
    let mut m = chars_of("error: the argument '--");
    append_str(&mut m, name);
    append_str(&mut m, "' cannot be used multiple times");
    cli_error(m)
}

/// Check that `name` was given at most once.
fn check_once(sc: &Scan, name: &str) -> (r: Result<(), CliError>)
    ensures
        r is Ok <==> once(scan_view(*sc), name@),
        r matches Err(e) ==> e.message@ == repeated_text(name@),
{
    let n = count_flag(sc, name);
    let v = named_values(sc, name);
    if n > 1 || v.len() > 1 {
        return Err(repeated_error(name));
    }
    Ok(())
}

fn take_flag(sc: &Scan, name: &str) -> (r: bool)
    ensures
        r == flag(scan_view(*sc), name@),
{
    count_flag(sc, name) >= 1
}

fn take_single(sc: &Scan, name: &str) -> (r: Option<String>)
    ensures
        opt_view(r) == single(scan_view(*sc), name@),
{
    let v = named_values(sc, name);
    if v.len() > 0 {
        Some(v[0].clone())
    } else {
        None
    }
}

fn invalid_value(raw: &String, name: &str, msg: &String) -> (r: CliError)
    ensures
        r.message@ == invalid_text(raw@, name@, msg@),
{
    let mut m = chars_of("error: invalid value '");
    append_chars(&mut m, &str_chars(raw));
    append_str(&mut m, "' for '--");
    append_str(&mut m, name);
    append_str(&mut m, "': ");
    append_chars(&mut m, &str_chars(msg));
    cli_error(m)
}

/// `parse_role`: `user` or `assistant`, in any case; the lower-cased role.
pub open spec fn role_of(raw: Seq<char>) -> Result<Seq<char>, Seq<char>> {
    let l = lower_seq(raw);
    if l == "user"@ || l == "assistant"@ {
        Ok(l)
    } else {
        Err("invalid role '"@ + l + "', expected 'user' or 'assistant'"@)
    }
}

pub fn parse_role(raw: &str) -> (r: Result<String, String>)
    ensures
        match r {
            Ok(s) => role_of(raw@) == Ok::<Seq<char>, Seq<char>>(s@),
            Err(m) => role_of(raw@) == Err::<Seq<char>, Seq<char>>(m@),
        },
{
    let l = crate::text::to_ascii_lowercase(&chars_of(raw));
    if crate::text::eq_chars(&l, &chars_of("user")) || crate::text::eq_chars(&l, &chars_of("assistant")) {
        return Ok(string_of(&l));
    }
    let mut m = chars_of("invalid role '");
    append_chars(&mut m, &l);
    append_str(&mut m, "', expected 'user' or 'assistant'");
    Err(string_of(&m))
}

/// `parse_positive_usize`: a decimal `usize` greater than zero.
pub open spec fn positive_of(raw: Seq<char>) -> Result<nat, Seq<char>> {
    match unsigned_of(raw, usize::MAX as nat) {
        Err(e) => Err("invalid positive integer '"@ + raw + "': "@ + int_error_text(e)),
        Ok(v) => if v == 0 {
            Err("invalid positive integer '"@ + raw + "': must be > 0"@)
        } else {
            Ok(v)
        },
    }
}

pub fn parse_positive_usize(raw: &str) -> (r: Result<usize, String>)
    ensures
        match r {
            Ok(v) => positive_of(raw@) == Ok::<nat, Seq<char>>(v as nat),
            Err(m) => positive_of(raw@) == Err::<nat, Seq<char>>(m@),
        },
{
    match parse_usize(raw) {
        Err(e) => {
            let mut m = chars_of("invalid positive integer '");
            append_str(&mut m, raw);
            append_str(&mut m, "': ");
            append_chars(&mut m, &str_chars(&e.message()));
            Err(string_of(&m))
        },
        Ok(v) => {
            if v == 0 {
                let mut m = chars_of("invalid positive integer '");
                append_str(&mut m, raw);
                append_str(&mut m, "': must be > 0");
                Err(string_of(&m))
            } else {
                Ok(v)
            }
        },
    }
}

/// What `humantime::parse_duration` gives: whole seconds, or the error's text.
pub uninterp spec fn duration_secs_of(raw: Seq<char>) -> Result<u64, Seq<char>>;

/// Calls `humantime::parse_duration` and takes `Duration::as_secs`; an error is
/// turned into its `Display` text. The contract only ties the result to the name
/// `duration_secs_of`.
#[verifier::external_body]
fn duration_secs(raw: &str) -> (r: Result<u64, String>)
    ensures
        match r {
            Ok(v) => duration_secs_of(raw@) == Ok::<u64, Seq<char>>(v),
            Err(m) => duration_secs_of(raw@) == Err::<u64, Seq<char>>(m@),
        },
{
    humantime::parse_duration(raw).map(|d| d.as_secs()).map_err(|e| e.to_string())
}

/// `parse_since`: a human duration (`7d`, `12h`) in seconds, at most `i64::MAX`.
pub open spec fn since_of(raw: Seq<char>) -> Result<i64, Seq<char>> {
    match duration_secs_of(raw) {
        Ok(secs) => Ok(if secs <= i64::MAX { secs as i64 } else { i64::MAX }),
        Err(e) => Err("invalid duration '"@ + raw + "': "@ + e),
    }
}

pub fn parse_since(raw: &str) -> (r: Result<i64, String>)
    ensures
        match r {
            Ok(v) => since_of(raw@) == Ok::<i64, Seq<char>>(v),
            Err(m) => since_of(raw@) == Err::<i64, Seq<char>>(m@),
        },
{
    match duration_secs(raw) {
        Ok(secs) => Ok(if secs <= 0x7fff_ffff_ffff_ffffu64 { secs as i64 } else { i64::MAX }),
        Err(e) => {
            let mut m = chars_of("invalid duration '");
            append_str(&mut m, raw);
            append_str(&mut m, "': ");
            append_chars(&mut m, &str_chars(&e));
            Err(string_of(&m))
        },
    }
}

/// Which values of an option parse: `Ok` when each given value parses.
pub enum ValueKind {
    Text,
    Int64,
    Size,
    Positive,
    Role,
    Since,
}

/// Whether the value of option `name` parses as its kind.
pub open spec fn value_ok(v: Seq<char>, kind: ValueKind) -> bool {
    match kind {
        ValueKind::Text => true,
        ValueKind::Int64 => i64_of(v) is Ok,
        ValueKind::Size => unsigned_of(v, usize::MAX as nat) is Ok,
        ValueKind::Positive => positive_of(v) is Ok,
        ValueKind::Role => role_of(v) is Ok,
        ValueKind::Since => since_of(v) is Ok,
    }
}

/// The option given at most once, and its value (if any) parses.
pub open spec fn opt_ok(sv: ScanView, name: Seq<char>, kind: ValueKind) -> bool {
    once(sv, name) && (single(sv, name) matches Some(v) ==> value_ok(v, kind))
}

fn opt_i64(sc: &Scan, name: &str) -> (r: Result<Option<i64>, CliError>)
    ensures
        r matches Err(e) ==> opt_err(scan_view(*sc), name@, ValueKind::Int64) == Some(e.message@),
        r is Ok ==> opt_err(scan_view(*sc), name@, ValueKind::Int64) is None,
        r is Ok <==> opt_ok(scan_view(*sc), name@, ValueKind::Int64),
        r matches Ok(o) ==> match single(scan_view(*sc), name@) {
            Some(v) => o is Some && i64_of(v) == Ok::<int, IntError>(o->0 as int),
            None => o is None,
        },
{
    check_once(sc, name)?;
    match take_single(sc, name) {
        None => Ok(None),
        Some(v) => match parse_i64(v.as_str()) {
            Ok(x) => Ok(Some(x)),
            Err(e) => Err(invalid_value(&v, name, &e.message())),
        },
    }
}

fn opt_size(sc: &Scan, name: &str) -> (r: Result<Option<usize>, CliError>)
    ensures
        r matches Err(e) ==> opt_err(scan_view(*sc), name@, ValueKind::Size) == Some(e.message@),
        r is Ok ==> opt_err(scan_view(*sc), name@, ValueKind::Size) is None,
        r is Ok <==> opt_ok(scan_view(*sc), name@, ValueKind::Size),
        r matches Ok(o) ==> match single(scan_view(*sc), name@) {
            Some(v) => o is Some && unsigned_of(v, usize::MAX as nat) == Ok::<nat, IntError>(o->0 as nat),
            None => o is None,
        },
{
    check_once(sc, name)?;
    match take_single(sc, name) {
        None => Ok(None),
        Some(v) => match parse_usize(v.as_str()) {
            Ok(x) => Ok(Some(x)),
            Err(e) => Err(invalid_value(&v, name, &e.message())),
        },
    }
}

fn opt_positive(sc: &Scan, name: &str) -> (r: Result<Option<usize>, CliError>)
    ensures
        r matches Err(e) ==> opt_err(scan_view(*sc), name@, ValueKind::Positive) == Some(e.message@),
        r is Ok ==> opt_err(scan_view(*sc), name@, ValueKind::Positive) is None,
        r is Ok <==> opt_ok(scan_view(*sc), name@, ValueKind::Positive),
        r matches Ok(o) ==> match single(scan_view(*sc), name@) {
            Some(v) => o is Some && positive_of(v) == Ok::<nat, Seq<char>>(o->0 as nat),
            None => o is None,
        },
{
    check_once(sc, name)?;
    match take_single(sc, name) {
        None => Ok(None),
        Some(v) => match parse_positive_usize(v.as_str()) {
            Ok(x) => Ok(Some(x)),
            Err(m) => Err(invalid_value(&v, name, &m)),
        },
    }
}

fn opt_text(sc: &Scan, name: &str) -> (r: Result<Option<String>, CliError>)
    ensures
        r matches Err(e) ==> opt_err(scan_view(*sc), name@, ValueKind::Text) == Some(e.message@),
        r is Ok ==> opt_err(scan_view(*sc), name@, ValueKind::Text) is None,
        r is Ok <==> opt_ok(scan_view(*sc), name@, ValueKind::Text),
        r matches Ok(o) ==> opt_view(o) == single(scan_view(*sc), name@),
{
    check_once(sc, name)?;
    Ok(take_single(sc, name))
}

fn opt_flag(sc: &Scan, name: &str) -> (r: Result<bool, CliError>)
    ensures
        r matches Err(e) ==> opt_err(scan_view(*sc), name@, ValueKind::Text) == Some(e.message@),
        r is Ok ==> opt_err(scan_view(*sc), name@, ValueKind::Text) is None,
        r is Ok <==> opt_ok(scan_view(*sc), name@, ValueKind::Text),
        r matches Ok(b) ==> b == flag(scan_view(*sc), name@),
{
    check_once(sc, name)?;
    Ok(take_flag(sc, name))
}


fn opt_role(sc: &Scan, name: &str) -> (r: Result<Option<String>, CliError>)
    ensures
        r matches Err(e) ==> opt_err(scan_view(*sc), name@, ValueKind::Role) == Some(e.message@),
        r is Ok ==> opt_err(scan_view(*sc), name@, ValueKind::Role) is None,
        r is Ok <==> opt_ok(scan_view(*sc), name@, ValueKind::Role),
        r matches Ok(o) ==> match single(scan_view(*sc), name@) {
            Some(v) => o is Some && role_of(v) == Ok::<Seq<char>, Seq<char>>(o->0@),
            None => o is None,
        },
{
    check_once(sc, name)?;
    match take_single(sc, name) {
        None => Ok(None),
        Some(v) => match parse_role(v.as_str()) {
            Ok(x) => Ok(Some(x)),
            Err(m) => Err(invalid_value(&v, name, &m)),
        },
    }
}

fn opt_since(sc: &Scan, name: &str) -> (r: Result<Option<i64>, CliError>)
    ensures
        r matches Err(e) ==> opt_err(scan_view(*sc), name@, ValueKind::Since) == Some(e.message@),
        r is Ok ==> opt_err(scan_view(*sc), name@, ValueKind::Since) is None,
        r is Ok <==> opt_ok(scan_view(*sc), name@, ValueKind::Since),
        r matches Ok(o) ==> match single(scan_view(*sc), name@) {
            Some(v) => o is Some && since_of(v) == Ok::<i64, Seq<char>>(o->0),
            None => o is None,
        },
{
    check_once(sc, name)?;
    match take_single(sc, name) {
        None => Ok(None),
        Some(v) => match parse_since(v.as_str()) {
            Ok(x) => Ok(Some(x)),
            Err(m) => Err(invalid_value(&v, name, &m)),
        },
    }
}

/// At most `max` positional arguments.
fn check_positionals(sc: &Scan, max: usize) -> (r: Result<(), CliError>)
    ensures
        r is Ok <==> scan_view(*sc).positionals.len() <= max,
        r matches Err(e) ==> Some(e.message@) == positional_err(scan_view(*sc), max as int),
{
    if sc.positionals.len() > max {
        let mut m = chars_of("error: unexpected argument '");
        append_chars(&mut m, &str_chars(&sc.positionals[max]));
        append_str(&mut m, "' found");
        return Err(cli_error(m));
    }
    Ok(())
}

fn missing_required(what: &str) -> (r: CliError)
    ensures
        r.message@ == missing_text(what@),
{
    let mut m = chars_of("error: the following required arguments were not provided: ");
    append_str(&mut m, what);
    cli_error(m)
}

fn add_def(v: &mut Vec<(String, bool)>, name: &str, takes_value: bool)
    ensures
        pair_bool_views(final(v)@) == pair_bool_views(old(v)@).push((name@, takes_value)),
{
    let ghost before = v@;
    v.push((name.to_owned(), takes_value));
    assert(pair_bool_views(v@) =~= pair_bool_views(before).push((name@, takes_value)));
}

// ---------------------------------------------------------------------------
// Commands
// ---------------------------------------------------------------------------

/// `tx search [TERM] [--full-text] [--provider P] [--since D] [--role R] [--limit N]`.
#[derive(Debug)]
pub struct SearchCommand {
    pub term: Option<String>,
    pub full_text: bool,
    pub provider: Option<String>,
    pub since: Option<i64>,
    pub role: Option<String>,
    pub limit: Option<usize>,
}

pub open spec fn search_defs() -> Seq<(Seq<char>, bool)> {
    seq![("full-text"@, false), ("provider"@, true), ("since"@, true), ("role"@, true), ("limit"@, true)]
}

pub open spec fn search_ok(sv: ScanView) -> bool {
    &&& sv.positionals.len() <= 1
    &&& opt_ok(sv, "full-text"@, ValueKind::Text)
    &&& opt_ok(sv, "provider"@, ValueKind::Text)
    &&& opt_ok(sv, "since"@, ValueKind::Since)
    &&& opt_ok(sv, "role"@, ValueKind::Role)
    &&& opt_ok(sv, "limit"@, ValueKind::Size)
}

pub open spec fn search_rel(sv: ScanView, c: SearchCommand) -> bool {
    &&& opt_view(c.term) == (if sv.positionals.len() == 1 { Some(sv.positionals[0]) } else { None })
    &&& c.full_text == flag(sv, "full-text"@)
    &&& opt_view(c.provider) == single(sv, "provider"@)
    &&& (match single(sv, "since"@) {
        Some(v) => c.since is Some && since_of(v) == Ok::<i64, Seq<char>>(c.since->0),
        None => c.since is None,
    })
    &&& (match single(sv, "role"@) {
        Some(v) => c.role is Some && role_of(v) == Ok::<Seq<char>, Seq<char>>(c.role->0@),
        None => c.role is None,
    })
    &&& (match single(sv, "limit"@) {
        Some(v) => c.limit is Some && unsigned_of(v, usize::MAX as nat) == Ok::<nat, IntError>(c.limit->0 as nat),
        None => c.limit is None,
    })
}

fn search_defs_exec() -> (r: Vec<(String, bool)>)
    ensures
        pair_bool_views(r@) == search_defs(),
{
    let mut v: Vec<(String, bool)> = Vec::new();
    add_def(&mut v, "full-text", false);
    add_def(&mut v, "provider", true);
    add_def(&mut v, "since", true);
    add_def(&mut v, "role", true);
    add_def(&mut v, "limit", true);
    assert(pair_bool_views(v@) =~= search_defs());
    v
}

/// The error `search` reports, checked in order.
pub open spec fn search_err(sv: ScanView) -> Option<Seq<char>> {
    first_err(positional_err(sv, 1), first_err(opt_err(sv, "full-text"@, ValueKind::Text), first_err(
        opt_err(sv, "provider"@, ValueKind::Text),
        first_err(opt_err(sv, "since"@, ValueKind::Since), first_err(opt_err(sv, "role"@, ValueKind::Role), opt_err(sv, "limit"@, ValueKind::Size))),
    )))
}

pub fn search_from(sc: &Scan) -> (r: Result<SearchCommand, CliError>)
    ensures
        r matches Err(e) ==> search_err(scan_view(*sc)) == Some(e.message@),
        r is Ok <==> search_ok(scan_view(*sc)),
        r matches Ok(c) ==> search_rel(scan_view(*sc), c),
{
    check_positionals(sc, 1)?;
    let full_text = opt_flag(sc, "full-text")?;
    let provider = opt_text(sc, "provider")?;
    let since = opt_since(sc, "since")?;
    let role = opt_role(sc, "role")?;
    let limit = opt_size(sc, "limit")?;
    let term = if sc.positionals.len() == 1 {
        Some(sc.positionals[0].clone())
    } else {
        None
    };
    Ok(SearchCommand { term, full_text, provider, since, role, limit })
}

/// `tx resume SESSION_ID [options] [-- PROVIDER_ARGS…]`.
#[derive(Debug)]
pub struct ResumeCommand {
    pub session_id: String,
    pub profile: Option<String>,
    pub pre_snippets: Vec<String>,
    pub post_snippets: Vec<String>,
    pub wrap: Option<String>,
    pub emit_command: bool,
    pub emit_json: bool,
    pub vars: Vec<String>,
    pub dry_run: bool,
    pub provider_args: Vec<String>,
}

pub open spec fn resume_defs() -> Seq<(Seq<char>, bool)> {
    seq![
        ("profile"@, true), ("pre"@, true), ("post"@, true), ("wrap"@, true), ("emit-command"@, false),
        ("emit-json"@, false), ("var"@, true), ("dry-run"@, false),
    ]
}

pub open spec fn resume_ok(sv: ScanView) -> bool {
    &&& sv.positionals.len() == 1
    &&& opt_ok(sv, "profile"@, ValueKind::Text)
    &&& opt_ok(sv, "wrap"@, ValueKind::Text)
    &&& opt_ok(sv, "emit-command"@, ValueKind::Text)
    &&& opt_ok(sv, "emit-json"@, ValueKind::Text)
    &&& opt_ok(sv, "dry-run"@, ValueKind::Text)
}

pub open spec fn resume_rel(sv: ScanView, c: ResumeCommand) -> bool {
    &&& c.session_id@ == sv.positionals[0]
    &&& opt_view(c.profile) == single(sv, "profile"@)
    &&& string_views(c.pre_snippets@) == values_named(sv.values, "pre"@)
    &&& string_views(c.post_snippets@) == values_named(sv.values, "post"@)
    &&& opt_view(c.wrap) == single(sv, "wrap"@)
    &&& c.emit_command == flag(sv, "emit-command"@)
    &&& c.emit_json == flag(sv, "emit-json"@)
    &&& string_views(c.vars@) == values_named(sv.values, "var"@)
    &&& c.dry_run == flag(sv, "dry-run"@)
    &&& string_views(c.provider_args@) == sv.trailing
}

fn resume_defs_exec() -> (r: Vec<(String, bool)>)
    ensures
        pair_bool_views(r@) == resume_defs(),
{
    let mut v: Vec<(String, bool)> = Vec::new();
    add_def(&mut v, "profile", true);
    add_def(&mut v, "pre", true);
    add_def(&mut v, "post", true);
    add_def(&mut v, "wrap", true);
    add_def(&mut v, "emit-command", false);
    add_def(&mut v, "emit-json", false);
    add_def(&mut v, "var", true);
    add_def(&mut v, "dry-run", false);
    assert(pair_bool_views(v@) =~= resume_defs());
    v
}

/// The error `resume` reports, checked in order.
pub open spec fn resume_err(sv: ScanView) -> Option<Seq<char>> {
    if sv.positionals.len() == 0 {
        Some(missing_text("<SESSION_ID>"@))
    } else {
        first_err(positional_err(sv, 1), first_err(opt_err(sv, "profile"@, ValueKind::Text), first_err(
            opt_err(sv, "wrap"@, ValueKind::Text),
            first_err(opt_err(sv, "emit-command"@, ValueKind::Text), first_err(opt_err(sv, "emit-json"@, ValueKind::Text), opt_err(sv, "dry-run"@, ValueKind::Text))),
        )))
    }
}

pub fn resume_from(sc: Scan) -> (r: Result<ResumeCommand, CliError>)
    ensures
        r matches Err(e) ==> resume_err(scan_view(sc)) == Some(e.message@),
        r is Ok <==> resume_ok(scan_view(sc)),
        r matches Ok(c) ==> resume_rel(scan_view(sc), c),
{
    if sc.positionals.len() == 0 {
        return Err(missing_required("<SESSION_ID>"));
    }
    check_positionals(&sc, 1)?;
    let profile = opt_text(&sc, "profile")?;
    let wrap = opt_text(&sc, "wrap")?;
    let emit_command = opt_flag(&sc, "emit-command")?;
    let emit_json = opt_flag(&sc, "emit-json")?;
    let dry_run = opt_flag(&sc, "dry-run")?;
    let pre_snippets = named_values(&sc, "pre");
    let post_snippets = named_values(&sc, "post");
    let vars = named_values(&sc, "var");
    let session_id = sc.positionals[0].clone();
    Ok(ResumeCommand {
        session_id,
        profile,
        pre_snippets,
        post_snippets,
        wrap,
        emit_command,
        emit_json,
        vars,
        dry_run,
        provider_args: sc.trailing,
    })
}

/// `tx export SESSION_ID`.
#[derive(Debug)]
pub struct ExportCommand {
    pub session_id: String,
}

/// `tx stats codex`.
#[derive(Debug, Clone, Copy, PartialEq, Eq, Structural)]
pub enum StatsCommand {
    Codex,
}

/// `tx db reset [--yes]`.
#[derive(Debug)]
pub enum DbCommand {
    Reset(DbResetCommand),
}

#[derive(Debug)]
pub struct DbResetCommand {
    pub yes: bool,
}

/// `tx rag index` and `tx rag search`.
#[derive(Debug)]
pub enum RagCommand {
    Index(RagIndexCommand),
    Search(RagSearchCommand),
}

#[derive(Debug)]
pub struct RagIndexCommand {
    pub since: Option<i64>,
    pub session: Option<String>,
    pub reindex: bool,
    pub batch_size: usize,
}

#[derive(Debug)]
pub struct RagSearchCommand {
    pub query: String,
    pub k: usize,
    pub session: Option<String>,
    pub tool: Option<String>,
    pub since: Option<i64>,
    pub until: Option<i64>,
    pub json: bool,
}

pub open spec fn rag_index_defs() -> Seq<(Seq<char>, bool)> {
    seq![("since"@, true), ("session"@, true), ("reindex"@, false), ("batch-size"@, true)]
}

pub open spec fn rag_index_ok(sv: ScanView) -> bool {
    &&& sv.positionals.len() == 0
    &&& opt_ok(sv, "since"@, ValueKind::Int64)
    &&& opt_ok(sv, "session"@, ValueKind::Text)
    &&& opt_ok(sv, "reindex"@, ValueKind::Text)
    &&& opt_ok(sv, "batch-size"@, ValueKind::Positive)
}

pub open spec fn rag_index_rel(sv: ScanView, c: RagIndexCommand) -> bool {
    &&& (match single(sv, "since"@) {
        Some(v) => c.since is Some && i64_of(v) == Ok::<int, IntError>(c.since->0 as int),
        None => c.since is None,
    })
    &&& opt_view(c.session) == single(sv, "session"@)
    &&& c.reindex == flag(sv, "reindex"@)
    &&& (match single(sv, "batch-size"@) {
        Some(v) => positive_of(v) == Ok::<nat, Seq<char>>(c.batch_size as nat),
        None => c.batch_size == 64,
    })
}

pub open spec fn rag_search_defs() -> Seq<(Seq<char>, bool)> {
    seq![
        ("query"@, true), ("k"@, true), ("session"@, true), ("tool"@, true), ("since"@, true), ("until"@, true),
        ("json"@, false),
    ]
}

pub open spec fn rag_search_ok(sv: ScanView) -> bool {
    &&& sv.positionals.len() == 0
    &&& opt_ok(sv, "query"@, ValueKind::Text)
    &&& single(sv, "query"@) is Some
    &&& opt_ok(sv, "k"@, ValueKind::Positive)
    &&& opt_ok(sv, "session"@, ValueKind::Text)
    &&& opt_ok(sv, "tool"@, ValueKind::Text)
    &&& opt_ok(sv, "since"@, ValueKind::Int64)
    &&& opt_ok(sv, "until"@, ValueKind::Int64)
    &&& opt_ok(sv, "json"@, ValueKind::Text)
}

pub open spec fn rag_search_rel(sv: ScanView, c: RagSearchCommand) -> bool {
    &&& single(sv, "query"@) == Some(c.query@)
    &&& (match single(sv, "k"@) {
        Some(v) => positive_of(v) == Ok::<nat, Seq<char>>(c.k as nat),
        None => c.k == 20,
    })
    &&& opt_view(c.session) == single(sv, "session"@)
    &&& opt_view(c.tool) == single(sv, "tool"@)
    &&& (match single(sv, "since"@) {
        Some(v) => c.since is Some && i64_of(v) == Ok::<int, IntError>(c.since->0 as int),
        None => c.since is None,
    })
    &&& (match single(sv, "until"@) {
        Some(v) => c.until is Some && i64_of(v) == Ok::<int, IntError>(c.until->0 as int),
        None => c.until is None,
    })
    &&& c.json == flag(sv, "json"@)
}

fn rag_index_defs_exec() -> (r: Vec<(String, bool)>)
    ensures
        pair_bool_views(r@) == rag_index_defs(),
{
    let mut v: Vec<(String, bool)> = Vec::new();
    add_def(&mut v, "since", true);
    add_def(&mut v, "session", true);
    add_def(&mut v, "reindex", false);
    add_def(&mut v, "batch-size", true);
    assert(pair_bool_views(v@) =~= rag_index_defs());
    v
}

fn rag_search_defs_exec() -> (r: Vec<(String, bool)>)
    ensures
        pair_bool_views(r@) == rag_search_defs(),
{
    let mut v: Vec<(String, bool)> = Vec::new();
    add_def(&mut v, "query", true);
    add_def(&mut v, "k", true);
    add_def(&mut v, "session", true);
    add_def(&mut v, "tool", true);
    add_def(&mut v, "since", true);
    add_def(&mut v, "until", true);
    add_def(&mut v, "json", false);
    assert(pair_bool_views(v@) =~= rag_search_defs());
    v
}

/// The error `rag index` reports, checked in order.
pub open spec fn rag_index_err(sv: ScanView) -> Option<Seq<char>> {
    first_err(positional_err(sv, 0), first_err(opt_err(sv, "since"@, ValueKind::Int64), first_err(
        opt_err(sv, "session"@, ValueKind::Text),
        first_err(opt_err(sv, "reindex"@, ValueKind::Text), opt_err(sv, "batch-size"@, ValueKind::Positive)),
    )))
}

pub fn rag_index_from(sc: &Scan) -> (r: Result<RagIndexCommand, CliError>)
    ensures
        r matches Err(e) ==> rag_index_err(scan_view(*sc)) == Some(e.message@),
        r is Ok <==> rag_index_ok(scan_view(*sc)),
        r matches Ok(c) ==> rag_index_rel(scan_view(*sc), c),
{
    check_positionals(sc, 0)?;
    let since = opt_i64(sc, "since")?;
    let session = opt_text(sc, "session")?;
    let reindex = opt_flag(sc, "reindex")?;
    let batch_size = match opt_positive(sc, "batch-size")? {
        Some(b) => b,
        None => 64,
    };
    Ok(RagIndexCommand { since, session, reindex, batch_size })
}

/// The error `rag search` reports, checked in order.
pub open spec fn rag_search_err(sv: ScanView) -> Option<Seq<char>> {
    first_err(positional_err(sv, 0), first_err(opt_err(sv, "query"@, ValueKind::Text), if single(sv, "query"@) is None {
        Some(missing_text("--query <QUERY>"@))
    } else {
        first_err(opt_err(sv, "k"@, ValueKind::Positive), first_err(opt_err(sv, "session"@, ValueKind::Text), first_err(
            opt_err(sv, "tool"@, ValueKind::Text),
            first_err(opt_err(sv, "since"@, ValueKind::Int64), first_err(opt_err(sv, "until"@, ValueKind::Int64), opt_err(sv, "json"@, ValueKind::Text))),
        )))
    }))
}

pub fn rag_search_from(sc: &Scan) -> (r: Result<RagSearchCommand, CliError>)
    ensures
        r matches Err(e) ==> rag_search_err(scan_view(*sc)) == Some(e.message@),
        r is Ok <==> rag_search_ok(scan_view(*sc)),
        r matches Ok(c) ==> rag_search_rel(scan_view(*sc), c),
{
    check_positionals(sc, 0)?;
    let query = match opt_text(sc, "query")? {
        Some(q) => q,
        None => return Err(missing_required("--query <QUERY>")),
    };
    let k = match opt_positive(sc, "k")? {
        Some(k) => k,
        None => 20,
    };
    let session = opt_text(sc, "session")?;
    let tool = opt_text(sc, "tool")?;
    let since = opt_i64(sc, "since")?;
    let until = opt_i64(sc, "until")?;
    let json = opt_flag(sc, "json")?;
    Ok(RagSearchCommand { query, k, session, tool, since, until, json })
}

/// `tx internal capture-arg` and `tx internal prompt-assembler`.
#[derive(Debug)]
pub enum InternalCommand {
    CaptureArg(InternalCaptureArgCommand),
    PromptAssembler(InternalPromptAssemblerCommand),
}

#[derive(Debug)]
pub struct InternalCaptureArgCommand {
    pub provider: String,
    pub bin: String,
    pub pre_commands: Vec<String>,
    pub provider_args: Vec<String>,
    pub prompt_limit: usize,
}

#[derive(Debug)]
pub struct InternalPromptAssemblerCommand {
    pub prompt: String,
    pub prompt_args: Vec<String>,
    pub prompt_limit: usize,
}

/// The default limit on a captured or assembled prompt, in bytes.
pub const DEFAULT_PROMPT_LIMIT: usize = 1048576;

pub open spec fn capture_defs() -> Seq<(Seq<char>, bool)> {
    seq![("provider"@, true), ("bin"@, true), ("pre"@, true), ("arg"@, true), ("prompt-limit"@, true)]
}

pub open spec fn capture_ok(sv: ScanView) -> bool {
    &&& sv.positionals.len() == 0
    &&& opt_ok(sv, "provider"@, ValueKind::Text) && single(sv, "provider"@) is Some
    &&& opt_ok(sv, "bin"@, ValueKind::Text) && single(sv, "bin"@) is Some
    &&& opt_ok(sv, "prompt-limit"@, ValueKind::Size)
}

pub open spec fn capture_rel(sv: ScanView, c: InternalCaptureArgCommand) -> bool {
    &&& single(sv, "provider"@) == Some(c.provider@)
    &&& single(sv, "bin"@) == Some(c.bin@)
    &&& string_views(c.pre_commands@) == values_named(sv.values, "pre"@)
    &&& string_views(c.provider_args@) == values_named(sv.values, "arg"@)
    &&& (match single(sv, "prompt-limit"@) {
        Some(v) => unsigned_of(v, usize::MAX as nat) == Ok::<nat, IntError>(c.prompt_limit as nat),
        None => c.prompt_limit == DEFAULT_PROMPT_LIMIT,
    })
}

pub open spec fn assembler_defs() -> Seq<(Seq<char>, bool)> {
    seq![("prompt"@, true), ("arg"@, true), ("prompt-limit"@, true)]
}

pub open spec fn assembler_ok(sv: ScanView) -> bool {
    &&& sv.positionals.len() == 0
    &&& opt_ok(sv, "prompt"@, ValueKind::Text) && single(sv, "prompt"@) is Some
    &&& opt_ok(sv, "prompt-limit"@, ValueKind::Size)
}

pub open spec fn assembler_rel(sv: ScanView, c: InternalPromptAssemblerCommand) -> bool {
    &&& single(sv, "prompt"@) == Some(c.prompt@)
    &&& string_views(c.prompt_args@) == values_named(sv.values, "arg"@)
    &&& (match single(sv, "prompt-limit"@) {
        Some(v) => unsigned_of(v, usize::MAX as nat) == Ok::<nat, IntError>(c.prompt_limit as nat),
        None => c.prompt_limit == DEFAULT_PROMPT_LIMIT,
    })
}

fn capture_defs_exec() -> (r: Vec<(String, bool)>)
    ensures
        pair_bool_views(r@) == capture_defs(),
{
    let mut v: Vec<(String, bool)> = Vec::new();
    add_def(&mut v, "provider", true);
    add_def(&mut v, "bin", true);
    add_def(&mut v, "pre", true);
    add_def(&mut v, "arg", true);
    add_def(&mut v, "prompt-limit", true);
    assert(pair_bool_views(v@) =~= capture_defs());
    v
}

fn assembler_defs_exec() -> (r: Vec<(String, bool)>)
    ensures
        pair_bool_views(r@) == assembler_defs(),
{
    let mut v: Vec<(String, bool)> = Vec::new();
    add_def(&mut v, "prompt", true);
    add_def(&mut v, "arg", true);
    add_def(&mut v, "prompt-limit", true);
    assert(pair_bool_views(v@) =~= assembler_defs());
    v
}

/// The error `internal capture-arg` reports, checked in order.
pub open spec fn capture_err(sv: ScanView) -> Option<Seq<char>> {
    first_err(positional_err(sv, 0), first_err(opt_err(sv, "provider"@, ValueKind::Text), if single(sv, "provider"@) is None {
        Some(missing_text("--provider <PROVIDER>"@))
    } else {
        first_err(opt_err(sv, "bin"@, ValueKind::Text), if single(sv, "bin"@) is None {
            Some(missing_text("--bin <BIN>"@))
        } else {
            opt_err(sv, "prompt-limit"@, ValueKind::Size)
        })
    }))
}

pub fn capture_from(sc: &Scan) -> (r: Result<InternalCaptureArgCommand, CliError>)
    ensures
        r matches Err(e) ==> capture_err(scan_view(*sc)) == Some(e.message@),
        r is Ok <==> capture_ok(scan_view(*sc)),
        r matches Ok(c) ==> capture_rel(scan_view(*sc), c),
{
    check_positionals(sc, 0)?;
    let provider = match opt_text(sc, "provider")? {
        Some(p) => p,
        None => return Err(missing_required("--provider <PROVIDER>")),
    };
    let bin = match opt_text(sc, "bin")? {
        Some(b) => b,
        None => return Err(missing_required("--bin <BIN>")),
    };
    let prompt_limit = match opt_size(sc, "prompt-limit")? {
        Some(n) => n,
        None => DEFAULT_PROMPT_LIMIT,
    };
    Ok(InternalCaptureArgCommand {
        provider,
        bin,
        pre_commands: named_values(sc, "pre"),
        provider_args: named_values(sc, "arg"),
        prompt_limit,
    })
}

/// The error `internal prompt-assembler` reports, checked in order.
pub open spec fn assembler_err(sv: ScanView) -> Option<Seq<char>> {
    first_err(positional_err(sv, 0), first_err(opt_err(sv, "prompt"@, ValueKind::Text), if single(sv, "prompt"@) is None {
        Some(missing_text("--prompt <PROMPT>"@))
    } else {
        opt_err(sv, "prompt-limit"@, ValueKind::Size)
    }))
}

pub fn assembler_from(sc: &Scan) -> (r: Result<InternalPromptAssemblerCommand, CliError>)
    ensures
        r matches Err(e) ==> assembler_err(scan_view(*sc)) == Some(e.message@),
        r is Ok <==> assembler_ok(scan_view(*sc)),
        r matches Ok(c) ==> assembler_rel(scan_view(*sc), c),
{
    check_positionals(sc, 0)?;
    let prompt = match opt_text(sc, "prompt")? {
        Some(p) => p,
        None => return Err(missing_required("--prompt <PROMPT>")),
    };
    let prompt_limit = match opt_size(sc, "prompt-limit")? {
        Some(n) => n,
        None => DEFAULT_PROMPT_LIMIT,
    };
    Ok(InternalPromptAssemblerCommand { prompt, prompt_args: named_values(sc, "arg"), prompt_limit })
}

/// `tx config …`.
#[derive(Debug)]
pub enum ConfigCommand {
    List,
    Dump,
    Where,
    Lint,
    Default(ConfigDefaultCommand),
    Schema(ConfigSchemaCommand),
}

#[derive(Debug)]
pub struct ConfigDefaultCommand {
    pub raw: bool,
}

#[derive(Debug)]
pub struct ConfigSchemaCommand {
    pub pretty: bool,
}

/// `tx self-update [--version TAG]`.
#[derive(Debug)]
pub struct SelfUpdateCommand {
    pub version: Option<String>,
}


/// A `tx` command.
#[derive(Debug)]
pub enum Command {
    Search(SearchCommand),
    Resume(ResumeCommand),
    Export(ExportCommand),
    Stats(StatsCommand),
    Config(ConfigCommand),
    Db(DbCommand),
    Rag(RagCommand),
    Doctor,
    SelfUpdate(SelfUpdateCommand),
    Internal(InternalCommand),
}

/// The parsed command line.
#[derive(Debug)]
pub struct Cli {
    pub config_dir: Option<String>,
    pub verbose: u8,
    pub quiet: bool,
    pub command: Option<Command>,
}

pub open spec fn top_defs() -> Seq<(Seq<char>, bool)> {
    seq![("config-dir"@, true)]
}

/// The scan of a command's own arguments, from `k` on.
pub open spec fn own_scan(toks: Seq<Seq<char>>, k: int, defs: Seq<(Seq<char>, bool)>, trailing_ok: bool) -> Option<ScanView> {
    match scan_from(toks, k, empty_scan(), defs, trailing_ok, false) {
        Ok((sv, _)) => Some(sv),
        Err(_) => None,
    }
}

/// For `tx <cmd> <sub> …` with `<cmd>` at `k`: the scan of `<sub>`'s arguments
/// when the subcommand named there is `sub`.
pub open spec fn nested_scan(toks: Seq<Seq<char>>, k: int, sub: Seq<char>, defs: Seq<(Seq<char>, bool)>) -> Option<ScanView> {
    match scan_from(toks, k + 1, empty_scan(), Seq::empty(), false, true) {
        Ok((_, k2)) => if 0 <= k2 < toks.len() && toks[k2] == sub {
            own_scan(toks, k2 + 1, defs, false)
        } else {
            None
        },
        Err(_) => None,
    }
}

/// A command without options or positional arguments besides `flag_name` (when
/// it has one).
pub open spec fn bare_ok(sv: ScanView, flag_name: Seq<char>) -> bool {
    sv.positionals.len() == 0 && opt_ok(sv, flag_name, ValueKind::Text)
}

/// The command named at `k` and its arguments, as parsed.
pub open spec fn command_rel(toks: Seq<Seq<char>>, k: int, c: Command) -> bool {
    match c {
        Command::Search(x) => {
            &&& toks[k] == "search"@
            &&& own_scan(toks, k + 1, search_defs(), false) matches Some(sv)
            &&& search_ok(sv) && search_rel(sv, x)
        },
        Command::Resume(x) => {
            &&& toks[k] == "resume"@
            &&& own_scan(toks, k + 1, resume_defs(), true) matches Some(sv)
            &&& resume_ok(sv) && resume_rel(sv, x)
        },
        Command::Export(x) => {
            &&& toks[k] == "export"@
            &&& own_scan(toks, k + 1, Seq::empty(), false) matches Some(sv)
            &&& sv.positionals.len() == 1 && x.session_id@ == sv.positionals[0]
        },
        Command::Stats(StatsCommand::Codex) => {
            &&& toks[k] == "stats"@
            &&& nested_scan(toks, k, "codex"@, Seq::empty()) matches Some(sv)
            &&& sv.positionals.len() == 0
        },
        Command::Config(x) => {
            &&& toks[k] == "config"@
            &&& match x {
                ConfigCommand::List => {
                    &&& nested_scan(toks, k, "list"@, Seq::empty()) matches Some(sv)
                    &&& sv.positionals.len() == 0
                },
                ConfigCommand::Dump => {
                    &&& nested_scan(toks, k, "dump"@, Seq::empty()) matches Some(sv)
                    &&& sv.positionals.len() == 0
                },
                ConfigCommand::Where => {
                    &&& nested_scan(toks, k, "where"@, Seq::empty()) matches Some(sv)
                    &&& sv.positionals.len() == 0
                },
                ConfigCommand::Lint => {
                    &&& nested_scan(toks, k, "lint"@, Seq::empty()) matches Some(sv)
                    &&& sv.positionals.len() == 0
                },
                ConfigCommand::Default(d) => {
                    &&& nested_scan(toks, k, "default"@, seq![("raw"@, false)]) matches Some(sv)
                    &&& bare_ok(sv, "raw"@) && d.raw == flag(sv, "raw"@)
                },
                ConfigCommand::Schema(d) => {
                    &&& nested_scan(toks, k, "schema"@, seq![("pretty"@, false)]) matches Some(sv)
                    &&& bare_ok(sv, "pretty"@) && d.pretty == flag(sv, "pretty"@)
                },
            }
        },
        Command::Db(DbCommand::Reset(x)) => {
            &&& toks[k] == "db"@
            &&& nested_scan(toks, k, "reset"@, seq![("yes"@, false)]) matches Some(sv)
            &&& bare_ok(sv, "yes"@) && x.yes == flag(sv, "yes"@)
        },
        Command::Rag(RagCommand::Index(x)) => {
            &&& toks[k] == "rag"@
            &&& nested_scan(toks, k, "index"@, rag_index_defs()) matches Some(sv)
            &&& rag_index_ok(sv) && rag_index_rel(sv, x)
        },
        Command::Rag(RagCommand::Search(x)) => {
            &&& toks[k] == "rag"@
            &&& nested_scan(toks, k, "search"@, rag_search_defs()) matches Some(sv)
            &&& rag_search_ok(sv) && rag_search_rel(sv, x)
        },
        Command::Doctor => {
            &&& toks[k] == "doctor"@
            &&& own_scan(toks, k + 1, Seq::empty(), false) matches Some(sv)
            &&& sv.positionals.len() == 0
        },
        Command::SelfUpdate(x) => {
            &&& toks[k] == "self-update"@
            &&& own_scan(toks, k + 1, seq![("version"@, true)], false) matches Some(sv)
            &&& sv.positionals.len() == 0 && opt_ok(sv, "version"@, ValueKind::Text)
            &&& opt_view(x.version) == single(sv, "version"@)
        },
        Command::Internal(InternalCommand::CaptureArg(x)) => {
            &&& toks[k] == "internal"@
            &&& nested_scan(toks, k, "capture-arg"@, capture_defs()) matches Some(sv)
            &&& capture_ok(sv) && capture_rel(sv, x)
        },
        Command::Internal(InternalCommand::PromptAssembler(x)) => {
            &&& toks[k] == "internal"@
            &&& nested_scan(toks, k, "prompt-assembler"@, assembler_defs()) matches Some(sv)
            &&& assembler_ok(sv) && assembler_rel(sv, x)
        },
    }
}

/// The flags met by the scan of a command's own arguments from `k`.
pub open spec fn own_flags(toks: Seq<Seq<char>>, k: int, defs: Seq<(Seq<char>, bool)>, trailing_ok: bool) -> Seq<Seq<char>> {
    match scan_from(toks, k, empty_scan(), defs, trailing_ok, false) {
        Ok((sv, _)) => sv.flags,
        Err(_) => Seq::empty(),
    }
}

/// For `tx <cmd> <sub> …` with `<cmd>` at `k`: the flags met before `<sub>`, then
/// those among `<sub>`'s own arguments.
pub open spec fn nested_flags(toks: Seq<Seq<char>>, k: int, defs: Seq<(Seq<char>, bool)>) -> Seq<Seq<char>> {
    match scan_from(toks, k + 1, empty_scan(), Seq::empty(), false, true) {
        Ok((sv, k2)) => sv.flags + own_flags(toks, k2 + 1, defs, false),
        Err(_) => Seq::empty(),
    }
}

/// The flags (`verbose`, `quiet`) met while parsing command `c` at `k`, in order.
pub open spec fn command_flags(toks: Seq<Seq<char>>, k: int, c: Command) -> Seq<Seq<char>> {
    match c {
        Command::Search(_) => own_flags(toks, k + 1, search_defs(), false),
        Command::Resume(_) => own_flags(toks, k + 1, resume_defs(), true),
        Command::Export(_) => own_flags(toks, k + 1, Seq::empty(), false),
        Command::Stats(_) => nested_flags(toks, k, Seq::empty()),
        Command::Config(x) => nested_flags(toks, k, match x {
            ConfigCommand::Default(_) => seq![("raw"@, false)],
            ConfigCommand::Schema(_) => seq![("pretty"@, false)],
            _ => Seq::empty(),
        }),
        Command::Db(_) => nested_flags(toks, k, seq![("yes"@, false)]),
        Command::Rag(RagCommand::Index(_)) => nested_flags(toks, k, rag_index_defs()),
        Command::Rag(RagCommand::Search(_)) => nested_flags(toks, k, rag_search_defs()),
        Command::Doctor => own_flags(toks, k + 1, Seq::empty(), false),
        Command::SelfUpdate(_) => own_flags(toks, k + 1, seq![("version"@, true)], false),
        Command::Internal(InternalCommand::CaptureArg(_)) => nested_flags(toks, k, capture_defs()),
        Command::Internal(InternalCommand::PromptAssembler(_)) => nested_flags(toks, k, assembler_defs()),
    }
}

/// The error when a command needs a subcommand and none follows.
pub open spec fn needs_text(cmd: Seq<char>) -> Seq<char> {
    "error: 'tx "@ + cmd + "' requires a subcommand but one was not provided"@
}

/// The error for a name that is no command or subcommand.
pub open spec fn unrecognized_text(name: Seq<char>) -> Seq<char> {
    "error: unrecognized subcommand '"@ + name + "'"@
}

/// The error of a command without options or positional arguments besides the
/// flag `flag_name`.
pub open spec fn bare_err(sv: ScanView, flag_name: Seq<char>) -> Option<Seq<char>> {
    first_err(positional_err(sv, 0), opt_err(sv, flag_name, ValueKind::Text))
}

/// The error of the scan of a command's own arguments from `k`, else what
/// `check` finds in them.
pub open spec fn own_err(
    toks: Seq<Seq<char>>,
    k: int,
    defs: Seq<(Seq<char>, bool)>,
    trailing_ok: bool,
    check: spec_fn(ScanView) -> Option<Seq<char>>,
) -> Option<Seq<char>> {
    match scan_from(toks, k, empty_scan(), defs, trailing_ok, false) {
        Err(m) => Some(m),
        Ok((sv, _)) => check(sv),
    }
}

/// For `tx <cmd> <sub> …` with `<cmd>` at `k`: the error of the scan up to the
/// subcommand, of a missing subcommand, else what `sub_check` finds for the
/// subcommand's name and position (`sub_check`).
pub open spec fn nested_err(
    toks: Seq<Seq<char>>,
    k: int,
    cmd: Seq<char>,
    sub_check: spec_fn(Seq<char>, int) -> Option<Seq<char>>,
) -> Option<Seq<char>> {
    match scan_from(toks, k + 1, empty_scan(), Seq::empty(), false, true) {
        Err(m) => Some(m),
        Ok((_, k2)) => if k2 >= toks.len() {
            Some(needs_text(cmd))
        } else {
            sub_check(toks[k2], k2)
        },
    }
}

pub open spec fn search_cmd_err(toks: Seq<Seq<char>>, k: int) -> Option<Seq<char>> {
    own_err(toks, k + 1, search_defs(), false, |sv: ScanView| search_err(sv))
}

pub open spec fn resume_cmd_err(toks: Seq<Seq<char>>, k: int) -> Option<Seq<char>> {
    own_err(toks, k + 1, resume_defs(), true, |sv: ScanView| resume_err(sv))
}

pub open spec fn export_cmd_err(toks: Seq<Seq<char>>, k: int) -> Option<Seq<char>> {
    own_err(
        toks,
        k + 1,
        Seq::empty(),
        false,
        |sv: ScanView|
            if sv.positionals.len() == 0 {
                Some(missing_text("<SESSION_ID>"@))
            } else {
                positional_err(sv, 1)
            },
    )
}

pub open spec fn doctor_cmd_err(toks: Seq<Seq<char>>, k: int) -> Option<Seq<char>> {
    own_err(toks, k + 1, Seq::empty(), false, |sv: ScanView| positional_err(sv, 0))
}

pub open spec fn self_update_cmd_err(toks: Seq<Seq<char>>, k: int) -> Option<Seq<char>> {
    own_err(
        toks,
        k + 1,
        seq![("version"@, true)],
        false,
        |sv: ScanView| first_err(positional_err(sv, 0), opt_err(sv, "version"@, ValueKind::Text)),
    )
}

pub open spec fn stats_cmd_err(toks: Seq<Seq<char>>, k: int) -> Option<Seq<char>> {
    nested_err(
        toks,
        k,
        "stats"@,
        |s: Seq<char>, k2: int|
            if s == "codex"@ {
                own_err(toks, k2 + 1, Seq::empty(), false, |sv: ScanView| positional_err(sv, 0))
            } else {
                Some(unrecognized_text(s))
            },
    )
}

pub open spec fn config_cmd_err(toks: Seq<Seq<char>>, k: int) -> Option<Seq<char>> {
    nested_err(
        toks,
        k,
        "config"@,
        |s: Seq<char>, k2: int|
            if s == "list"@ || s == "dump"@ || s == "where"@ || s == "lint"@ {
                own_err(toks, k2 + 1, Seq::empty(), false, |sv: ScanView| positional_err(sv, 0))
            } else if s == "default"@ {
                own_err(toks, k2 + 1, seq![("raw"@, false)], false, |sv: ScanView| bare_err(sv, "raw"@))
            } else if s == "schema"@ {
                own_err(toks, k2 + 1, seq![("pretty"@, false)], false, |sv: ScanView| bare_err(sv, "pretty"@))
            } else {
                Some(unrecognized_text(s))
            },
    )
}

pub open spec fn db_cmd_err(toks: Seq<Seq<char>>, k: int) -> Option<Seq<char>> {
    nested_err(
        toks,
        k,
        "db"@,
        |s: Seq<char>, k2: int|
            if s == "reset"@ {
                own_err(toks, k2 + 1, seq![("yes"@, false)], false, |sv: ScanView| bare_err(sv, "yes"@))
            } else {
                Some(unrecognized_text(s))
            },
    )
}

pub open spec fn rag_cmd_err(toks: Seq<Seq<char>>, k: int) -> Option<Seq<char>> {
    nested_err(
        toks,
        k,
        "rag"@,
        |s: Seq<char>, k2: int|
            if s == "index"@ {
                own_err(toks, k2 + 1, rag_index_defs(), false, |sv: ScanView| rag_index_err(sv))
            } else if s == "search"@ {
                own_err(toks, k2 + 1, rag_search_defs(), false, |sv: ScanView| rag_search_err(sv))
            } else {
                Some(unrecognized_text(s))
            },
    )
}

pub open spec fn internal_cmd_err(toks: Seq<Seq<char>>, k: int) -> Option<Seq<char>> {
    nested_err(
        toks,
        k,
        "internal"@,
        |s: Seq<char>, k2: int|
            if s == "capture-arg"@ {
                own_err(toks, k2 + 1, capture_defs(), false, |sv: ScanView| capture_err(sv))
            } else if s == "prompt-assembler"@ {
                own_err(toks, k2 + 1, assembler_defs(), false, |sv: ScanView| assembler_err(sv))
            } else {
                Some(unrecognized_text(s))
            },
    )
}

/// The error reported for the command named at `k`, when it is refused.
pub open spec fn command_err(toks: Seq<Seq<char>>, k: int) -> Option<Seq<char>> {
    let n = toks[k];
    if n == "search"@ {
        search_cmd_err(toks, k)
    } else if n == "resume"@ {
        resume_cmd_err(toks, k)
    } else if n == "export"@ {
        export_cmd_err(toks, k)
    } else if n == "doctor"@ {
        doctor_cmd_err(toks, k)
    } else if n == "self-update"@ {
        self_update_cmd_err(toks, k)
    } else if n == "stats"@ {
        stats_cmd_err(toks, k)
    } else if n == "config"@ {
        config_cmd_err(toks, k)
    } else if n == "db"@ {
        db_cmd_err(toks, k)
    } else if n == "rag"@ {
        rag_cmd_err(toks, k)
    } else if n == "internal"@ {
        internal_cmd_err(toks, k)
    } else {
        Some(unrecognized_text(n))
    }
}

fn single_def(name: &str, takes_value: bool) -> (r: Vec<(String, bool)>)
    ensures
        pair_bool_views(r@) == seq![(name@, takes_value)],
{
    let mut v: Vec<(String, bool)> = Vec::new();
    add_def(&mut v, name, takes_value);
    assert(pair_bool_views(v@) =~= seq![(name@, takes_value)]);
    v
}

fn no_defs() -> (r: Vec<(String, bool)>)
    ensures
        pair_bool_views(r@) == Seq::<(Seq<char>, bool)>::empty(),
{
    let v: Vec<(String, bool)> = Vec::new();
    assert(pair_bool_views(v@) =~= Seq::<(Seq<char>, bool)>::empty());
    v
}

fn unrecognized(name: &String) -> (r: CliError)
    ensures
        r.message@ == unrecognized_text(name@),
{
    let mut m = chars_of("error: unrecognized subcommand '");
    append_chars(&mut m, &str_chars(name));
    append_str(&mut m, "'");
    cli_error(m)
}

fn needs_subcommand(cmd: &str) -> (r: CliError)
    ensures
        r.message@ == needs_text(cmd@),
{
    let mut m = chars_of("error: 'tx ");
    append_str(&mut m, cmd);
    append_str(&mut m, "' requires a subcommand but one was not provided");
    cli_error(m)
}

/// Scan the arguments of the subcommand named after `<cmd>` at `k`: its name and
/// the index its own arguments start at.
fn subcommand_at(toks: &Vec<String>, k: usize, cmd: &str, flags: &mut Vec<String>) -> (r: Result<usize, CliError>)
    requires
        k < toks.len(),
    ensures
        r matches Ok(k2) ==> {
            &&& k2 < toks.len()
            &&& scan_from(string_views(toks@), k + 1, empty_scan(), Seq::empty(), false, true) matches Ok((_, j))
            &&& j == k2
        },
        r is Err ==> !(scan_from(string_views(toks@), k + 1, empty_scan(), Seq::empty(), false, true) matches Ok((_, j))
            && j < toks.len()),
        r is Ok ==> (scan_from(string_views(toks@), k + 1, empty_scan(), Seq::empty(), false, true) matches Ok((sv, _))
            && string_views(final(flags)@) == string_views(old(flags)@) + sv.flags),
        r matches Err(e) ==> nested_err(string_views(toks@), k as int, cmd@, |s: Seq<char>, k2: int| None::<Seq<char>>)
            == Some(e.message@),
{
    let (sc, k2) = scan_args(toks, k + 1, &no_defs(), false, true)?;
    append_string_vec(flags, &sc.flags);
    if k2 >= toks.len() {
        return Err(needs_subcommand(cmd));
    }
    Ok(k2)
}

/// Scan a command's own arguments from `k`.
fn own_args(toks: &Vec<String>, k: usize, defs: &Vec<(String, bool)>, trailing_ok: bool, flags: &mut Vec<String>) -> (r: Result<Scan, CliError>)
    requires
        k <= toks.len(),
    ensures
        r matches Ok(sc) ==> own_scan(string_views(toks@), k as int, pair_bool_views(defs@), trailing_ok) == Some(scan_view(sc)),
        r is Err ==> own_scan(string_views(toks@), k as int, pair_bool_views(defs@), trailing_ok) is None,
        r matches Ok(sc) ==> string_views(final(flags)@) == string_views(old(flags)@) + scan_view(sc).flags,
        r matches Err(e) ==> own_err(string_views(toks@), k as int, pair_bool_views(defs@), trailing_ok, |sv: ScanView| None::<Seq<char>>)
            == Some(e.message@),
{
    let (sc, _) = scan_args(toks, k, defs, trailing_ok, false)?;
    append_string_vec(flags, &sc.flags);
    Ok(sc)
}

fn bare_command(sc: &Scan, flag_name: &str) -> (r: Result<bool, CliError>)
    ensures
        r matches Err(e) ==> bare_err(scan_view(*sc), flag_name@) == Some(e.message@),
        r is Ok <==> bare_ok(scan_view(*sc), flag_name@),
        r matches Ok(b) ==> b == flag(scan_view(*sc), flag_name@),
{
    check_positionals(sc, 0)?;
    opt_flag(sc, flag_name)
}

/// The lengths and first letters that tell the command names apart.
proof fn lemma_name_facts()
    ensures
        "search"@.len() == 6 && "resume"@.len() == 6 && "export"@.len() == 6 && "doctor"@.len() == 6,
        "config"@.len() == 6 && "self-update"@.len() == 11 && "stats"@.len() == 5 && "db"@.len() == 2,
        "rag"@.len() == 3 && "internal"@.len() == 8,
        "search"@[0] == 's' && "resume"@[0] == 'r' && "export"@[0] == 'e' && "doctor"@[0] == 'd',
        "config"@[0] == 'c',
{
    reveal_strlit("search");
    reveal_strlit("resume");
    reveal_strlit("export");
    reveal_strlit("doctor");
    reveal_strlit("self-update");
    reveal_strlit("stats");
    reveal_strlit("config");
    reveal_strlit("db");
    reveal_strlit("rag");
    reveal_strlit("internal");
}

/// `search` at `k`.
fn parse_search(toks: &Vec<String>, k: usize, flags: &mut Vec<String>) -> (r: Result<Command, CliError>)
    requires
        k < toks.len(),
        string_views(toks@)[k as int] == "search"@,
    ensures
        r matches Err(e) ==> search_cmd_err(string_views(toks@), k as int) == Some(e.message@),
        r matches Ok(c) ==> command_rel(string_views(toks@), k as int, c),
        r matches Ok(c) ==> string_views(final(flags)@) == string_views(old(flags)@) + command_flags(string_views(toks@), k as int, c),
        r is Err ==> forall|x: SearchCommand| !command_rel(string_views(toks@), k as int, Command::Search(x)),
{
    let sc = own_args(toks, k + 1, &search_defs_exec(), false, flags)?;
    Ok(Command::Search(search_from(&sc)?))
}

/// `resume` at `k`.
fn parse_resume(toks: &Vec<String>, k: usize, flags: &mut Vec<String>) -> (r: Result<Command, CliError>)
    requires
        k < toks.len(),
        string_views(toks@)[k as int] == "resume"@,
    ensures
        r matches Err(e) ==> resume_cmd_err(string_views(toks@), k as int) == Some(e.message@),
        r matches Ok(c) ==> command_rel(string_views(toks@), k as int, c),
        r matches Ok(c) ==> string_views(final(flags)@) == string_views(old(flags)@) + command_flags(string_views(toks@), k as int, c),
        r is Err ==> forall|x: ResumeCommand| !command_rel(string_views(toks@), k as int, Command::Resume(x)),
{
    let sc = own_args(toks, k + 1, &resume_defs_exec(), true, flags)?;
    Ok(Command::Resume(resume_from(sc)?))
}

/// `export` at `k`.
fn parse_export(toks: &Vec<String>, k: usize, flags: &mut Vec<String>) -> (r: Result<Command, CliError>)
    requires
        k < toks.len(),
        string_views(toks@)[k as int] == "export"@,
    ensures
        r matches Err(e) ==> export_cmd_err(string_views(toks@), k as int) == Some(e.message@),
        r matches Ok(c) ==> command_rel(string_views(toks@), k as int, c),
        r matches Ok(c) ==> string_views(final(flags)@) == string_views(old(flags)@) + command_flags(string_views(toks@), k as int, c),
        r is Err ==> forall|x: ExportCommand| !command_rel(string_views(toks@), k as int, Command::Export(x)),
{
    let sc = own_args(toks, k + 1, &no_defs(), false, flags)?;
    if sc.positionals.len() == 0 {
        return Err(missing_required("<SESSION_ID>"));
    }
    check_positionals(&sc, 1)?;
    Ok(Command::Export(ExportCommand { session_id: sc.positionals[0].clone() }))
}

/// `doctor` at `k`.
fn parse_doctor(toks: &Vec<String>, k: usize, flags: &mut Vec<String>) -> (r: Result<Command, CliError>)
    requires
        k < toks.len(),
        string_views(toks@)[k as int] == "doctor"@,
    ensures
        r matches Err(e) ==> doctor_cmd_err(string_views(toks@), k as int) == Some(e.message@),
        r matches Ok(c) ==> command_rel(string_views(toks@), k as int, c),
        r matches Ok(c) ==> string_views(final(flags)@) == string_views(old(flags)@) + command_flags(string_views(toks@), k as int, c),
        r is Err ==> !command_rel(string_views(toks@), k as int, Command::Doctor),
{
    let sc = own_args(toks, k + 1, &no_defs(), false, flags)?;
    check_positionals(&sc, 0)?;
    Ok(Command::Doctor)
}

/// `self-update` at `k`.
fn parse_self_update(toks: &Vec<String>, k: usize, flags: &mut Vec<String>) -> (r: Result<Command, CliError>)
    requires
        k < toks.len(),
        string_views(toks@)[k as int] == "self-update"@,
    ensures
        r matches Err(e) ==> self_update_cmd_err(string_views(toks@), k as int) == Some(e.message@),
        r matches Ok(c) ==> command_rel(string_views(toks@), k as int, c),
        r matches Ok(c) ==> string_views(final(flags)@) == string_views(old(flags)@) + command_flags(string_views(toks@), k as int, c),
        r is Err ==> forall|x: SelfUpdateCommand| !command_rel(string_views(toks@), k as int, Command::SelfUpdate(x)),
{
    let sc = own_args(toks, k + 1, &single_def("version", true), false, flags)?;
    check_positionals(&sc, 0)?;
    let version = opt_text(&sc, "version")?;
    Ok(Command::SelfUpdate(SelfUpdateCommand { version }))
}

/// `stats <sub>` at `k`.
fn parse_stats(toks: &Vec<String>, k: usize, flags: &mut Vec<String>) -> (r: Result<Command, CliError>)
    requires
        k < toks.len(),
        string_views(toks@)[k as int] == "stats"@,
    ensures
        r matches Err(e) ==> stats_cmd_err(string_views(toks@), k as int) == Some(e.message@),
        r matches Ok(c) ==> command_rel(string_views(toks@), k as int, c),
        r matches Ok(c) ==> string_views(final(flags)@) == string_views(old(flags)@) + command_flags(string_views(toks@), k as int, c),
        r is Err ==> forall|x: StatsCommand| !command_rel(string_views(toks@), k as int, Command::Stats(x)),
{
    let ghost tv = string_views(toks@);
    let k2 = subcommand_at(toks, k, "stats", flags)?;
    assert(tv[k2 as int] == toks@[k2 as int]@);
    if crate::text::eq_str(&toks[k2], "codex") {
        let sc = own_args(toks, k2 + 1, &no_defs(), false, flags)?;
        check_positionals(&sc, 0)?;
        return Ok(Command::Stats(StatsCommand::Codex));
    }
    Err(unrecognized(&toks[k2]))
}

/// `config <sub>` at `k`.
fn parse_config(toks: &Vec<String>, k: usize, flags: &mut Vec<String>) -> (r: Result<Command, CliError>)
    requires
        k < toks.len(),
        string_views(toks@)[k as int] == "config"@,
    ensures
        r matches Err(e) ==> config_cmd_err(string_views(toks@), k as int) == Some(e.message@),
        r matches Ok(c) ==> command_rel(string_views(toks@), k as int, c),
        r matches Ok(c) ==> string_views(final(flags)@) == string_views(old(flags)@) + command_flags(string_views(toks@), k as int, c),
        r is Err ==> forall|x: ConfigCommand| !command_rel(string_views(toks@), k as int, Command::Config(x)),
{
    let ghost tv = string_views(toks@);
    proof {
        reveal_strlit("list");
        reveal_strlit("dump");
        reveal_strlit("where");
        reveal_strlit("lint");
        reveal_strlit("default");
        reveal_strlit("schema");
    }
    let k2 = subcommand_at(toks, k, "config", flags)?;
    assert(tv[k2 as int] == toks@[k2 as int]@);
    let sub = &toks[k2];
    if crate::text::eq_str(sub, "list") || crate::text::eq_str(sub, "dump") || crate::text::eq_str(sub, "where")
        || crate::text::eq_str(sub, "lint") {
        let sc = own_args(toks, k2 + 1, &no_defs(), false, flags)?;
        check_positionals(&sc, 0)?;
        let c = if crate::text::eq_str(sub, "list") {
            ConfigCommand::List
        } else if crate::text::eq_str(sub, "dump") {
            ConfigCommand::Dump
        } else if crate::text::eq_str(sub, "where") {
            ConfigCommand::Where
        } else {
            ConfigCommand::Lint
        };
        return Ok(Command::Config(c));
    }
    if crate::text::eq_str(sub, "default") {
        let sc = own_args(toks, k2 + 1, &single_def("raw", false), false, flags)?;
        let raw = bare_command(&sc, "raw")?;
        return Ok(Command::Config(ConfigCommand::Default(ConfigDefaultCommand { raw })));
    }
    if crate::text::eq_str(sub, "schema") {
        let sc = own_args(toks, k2 + 1, &single_def("pretty", false), false, flags)?;
        let pretty = bare_command(&sc, "pretty")?;
        return Ok(Command::Config(ConfigCommand::Schema(ConfigSchemaCommand { pretty })));
    }
    Err(unrecognized(sub))
}

/// `db <sub>` at `k`.
fn parse_db(toks: &Vec<String>, k: usize, flags: &mut Vec<String>) -> (r: Result<Command, CliError>)
    requires
        k < toks.len(),
        string_views(toks@)[k as int] == "db"@,
    ensures
        r matches Err(e) ==> db_cmd_err(string_views(toks@), k as int) == Some(e.message@),
        r matches Ok(c) ==> command_rel(string_views(toks@), k as int, c),
        r matches Ok(c) ==> string_views(final(flags)@) == string_views(old(flags)@) + command_flags(string_views(toks@), k as int, c),
        r is Err ==> forall|x: DbCommand| !command_rel(string_views(toks@), k as int, Command::Db(x)),
{
    let ghost tv = string_views(toks@);
    let k2 = subcommand_at(toks, k, "db", flags)?;
    assert(tv[k2 as int] == toks@[k2 as int]@);
    if crate::text::eq_str(&toks[k2], "reset") {
        let sc = own_args(toks, k2 + 1, &single_def("yes", false), false, flags)?;
        let yes = bare_command(&sc, "yes")?;
        return Ok(Command::Db(DbCommand::Reset(DbResetCommand { yes })));
    }
    Err(unrecognized(&toks[k2]))
}

/// `rag <sub>` at `k`.
fn parse_rag(toks: &Vec<String>, k: usize, flags: &mut Vec<String>) -> (r: Result<Command, CliError>)
    requires
        k < toks.len(),
        string_views(toks@)[k as int] == "rag"@,
    ensures
        r matches Err(e) ==> rag_cmd_err(string_views(toks@), k as int) == Some(e.message@),
        r matches Ok(c) ==> command_rel(string_views(toks@), k as int, c),
        r matches Ok(c) ==> string_views(final(flags)@) == string_views(old(flags)@) + command_flags(string_views(toks@), k as int, c),
        r is Err ==> forall|x: RagCommand| !command_rel(string_views(toks@), k as int, Command::Rag(x)),
{
    let ghost tv = string_views(toks@);
    let k2 = subcommand_at(toks, k, "rag", flags)?;
    assert(tv[k2 as int] == toks@[k2 as int]@);
    proof {
        reveal_strlit("index");
        reveal_strlit("search");
    }
    if crate::text::eq_str(&toks[k2], "index") {
        let sc = own_args(toks, k2 + 1, &rag_index_defs_exec(), false, flags)?;
        return Ok(Command::Rag(RagCommand::Index(rag_index_from(&sc)?)));
    }
    if crate::text::eq_str(&toks[k2], "search") {
        let sc = own_args(toks, k2 + 1, &rag_search_defs_exec(), false, flags)?;
        return Ok(Command::Rag(RagCommand::Search(rag_search_from(&sc)?)));
    }
    Err(unrecognized(&toks[k2]))
}

/// `internal <sub>` at `k`.
fn parse_internal(toks: &Vec<String>, k: usize, flags: &mut Vec<String>) -> (r: Result<Command, CliError>)
    requires
        k < toks.len(),
        string_views(toks@)[k as int] == "internal"@,
    ensures
        r matches Err(e) ==> internal_cmd_err(string_views(toks@), k as int) == Some(e.message@),
        r matches Ok(c) ==> command_rel(string_views(toks@), k as int, c),
        r matches Ok(c) ==> string_views(final(flags)@) == string_views(old(flags)@) + command_flags(string_views(toks@), k as int, c),
        r is Err ==> forall|x: InternalCommand| !command_rel(string_views(toks@), k as int, Command::Internal(x)),
{
    let ghost tv = string_views(toks@);
    let k2 = subcommand_at(toks, k, "internal", flags)?;
    assert(tv[k2 as int] == toks@[k2 as int]@);
    proof {
        reveal_strlit("capture-arg");
        reveal_strlit("prompt-assembler");
    }
    if crate::text::eq_str(&toks[k2], "capture-arg") {
        let sc = own_args(toks, k2 + 1, &capture_defs_exec(), false, flags)?;
        return Ok(Command::Internal(InternalCommand::CaptureArg(capture_from(&sc)?)));
    }
    if crate::text::eq_str(&toks[k2], "prompt-assembler") {
        let sc = own_args(toks, k2 + 1, &assembler_defs_exec(), false, flags)?;
        return Ok(Command::Internal(InternalCommand::PromptAssembler(assembler_from(&sc)?)));
    }
    Err(unrecognized(&toks[k2]))
}

/// Parse the command named at `k`.
fn parse_command(toks: &Vec<String>, k: usize, flags: &mut Vec<String>) -> (r: Result<Command, CliError>)
    requires
        k < toks.len(),
    ensures
        r matches Err(e) ==> command_err(string_views(toks@), k as int) == Some(e.message@),
        r matches Ok(c) ==> command_rel(string_views(toks@), k as int, c),
        r matches Ok(c) ==> string_views(final(flags)@) == string_views(old(flags)@) + command_flags(string_views(toks@), k as int, c),
        r is Err ==> forall|c: Command| !command_rel(string_views(toks@), k as int, c),
{
    let ghost tv = string_views(toks@);
    let name = str_chars(&toks[k]);
    assert(tv[k as int] == name@);
    let r = if crate::text::eq_chars(&name, &chars_of("search")) {
        parse_search(toks, k, flags)
    } else if crate::text::eq_chars(&name, &chars_of("resume")) {
        parse_resume(toks, k, flags)
    } else if crate::text::eq_chars(&name, &chars_of("export")) {
        parse_export(toks, k, flags)
    } else if crate::text::eq_chars(&name, &chars_of("doctor")) {
        parse_doctor(toks, k, flags)
    } else if crate::text::eq_chars(&name, &chars_of("self-update")) {
        parse_self_update(toks, k, flags)
    } else if crate::text::eq_chars(&name, &chars_of("stats")) {
        parse_stats(toks, k, flags)
    } else if crate::text::eq_chars(&name, &chars_of("config")) {
        parse_config(toks, k, flags)
    } else if crate::text::eq_chars(&name, &chars_of("db")) {
        parse_db(toks, k, flags)
    } else if crate::text::eq_chars(&name, &chars_of("rag")) {
        parse_rag(toks, k, flags)
    } else if crate::text::eq_chars(&name, &chars_of("internal")) {
        parse_internal(toks, k, flags)
    } else {
        Err(unrecognized(&toks[k]))
    };
    proof {
        if r is Err {
            lemma_name_facts();
            assert(forall|x: SearchCommand| !command_rel(tv, k as int, Command::Search(x)));
            assert(forall|x: ResumeCommand| !command_rel(tv, k as int, Command::Resume(x)));
            assert(forall|x: ExportCommand| !command_rel(tv, k as int, Command::Export(x)));
            assert(forall|x: StatsCommand| !command_rel(tv, k as int, Command::Stats(x)));
            assert(forall|x: ConfigCommand| !command_rel(tv, k as int, Command::Config(x)));
            assert(forall|x: DbCommand| !command_rel(tv, k as int, Command::Db(x)));
            assert(forall|x: RagCommand| !command_rel(tv, k as int, Command::Rag(x)));
            assert(!command_rel(tv, k as int, Command::Doctor));
            assert(forall|x: SelfUpdateCommand| !command_rel(tv, k as int, Command::SelfUpdate(x)));
            assert(forall|x: InternalCommand| !command_rel(tv, k as int, Command::Internal(x)));
            assert forall|c: Command| !command_rel(tv, k as int, c) by {
                match c {
                    Command::Search(x) => assert(!command_rel(tv, k as int, Command::Search(x))),
                    Command::Resume(x) => assert(!command_rel(tv, k as int, Command::Resume(x))),
                    Command::Export(x) => assert(!command_rel(tv, k as int, Command::Export(x))),
                    Command::Stats(x) => assert(!command_rel(tv, k as int, Command::Stats(x))),
                    Command::Config(x) => assert(!command_rel(tv, k as int, Command::Config(x))),
                    Command::Db(x) => assert(!command_rel(tv, k as int, Command::Db(x))),
                    Command::Rag(x) => assert(!command_rel(tv, k as int, Command::Rag(x))),
                    Command::Doctor => {},
                    Command::SelfUpdate(x) => assert(!command_rel(tv, k as int, Command::SelfUpdate(x))),
                    Command::Internal(x) => assert(!command_rel(tv, k as int, Command::Internal(x))),
                }
            }
        }
    }
    r
}

/// A count as `-v` flags add up in a `u8`: at most 255.
pub open spec fn capped(n: nat) -> u8 {
    if n > 255 {
        255
    } else {
        n as u8
    }
}

/// All flags of a command line: those before the command, then the command's.
pub open spec fn all_flags(toks: Seq<Seq<char>>, top: ScanView, k: int, command: Option<Command>) -> Seq<Seq<char>> {
    match command {
        Some(c) => top.flags + command_flags(toks, k, c),
        None => top.flags,
    }
}

/// The error a refused command line is reported with: that of the options
/// before the command, else the command's.
pub open spec fn cli_err(toks: Seq<Seq<char>>) -> Option<Seq<char>> {
    match scan_from(toks, 1, empty_scan(), top_defs(), false, true) {
        Err(m) => Some(m),
        Ok((tsv, k)) => first_err(
            opt_err(tsv, "config-dir"@, ValueKind::Text),
            if k < toks.len() {
                command_err(toks, k)
            } else {
                None
            },
        ),
    }
}

impl Cli {
    /// Parse a command line; the first argument is the program's name.
    pub fn try_parse_from(args: Vec<String>) -> (r: Result<Cli, CliError>)
        ensures
            r matches Ok(cli) ==> (args@.len() == 0 && cli.command is None) || {
                &&& scan_from(string_views(args@), 1, empty_scan(), top_defs(), false, true) matches Ok((tsv, k))
                &&& opt_ok(tsv, "config-dir"@, ValueKind::Text)
                &&& opt_view(cli.config_dir) == single(tsv, "config-dir"@)
                &&& match cli.command {
                    None => k == args@.len(),
                    Some(c) => 0 <= k < args@.len() && command_rel(string_views(args@), k, c),
                }
            },
            r matches Ok(cli) ==> args@.len() == 0 ==> cli.verbose == 0 && !cli.quiet && cli.config_dir is None,
            r matches Ok(cli) ==> args@.len() > 0 ==> {
                &&& scan_from(string_views(args@), 1, empty_scan(), top_defs(), false, true) matches Ok((tsv, k))
                &&& cli.verbose == capped(count_name(all_flags(string_views(args@), tsv, k, cli.command), "verbose"@))
                &&& cli.quiet == (count_name(all_flags(string_views(args@), tsv, k, cli.command), "quiet"@) > 0)
            },
            r matches Err(e) ==> cli_err(string_views(args@)) == Some(e.message@),
            r is Ok <==> args@.len() == 0 || {
                &&& scan_from(string_views(args@), 1, empty_scan(), top_defs(), false, true) matches Ok((tsv, k))
                &&& opt_ok(tsv, "config-dir"@, ValueKind::Text)
                &&& (k < args@.len() ==> exists|c: Command| command_rel(string_views(args@), k, c))
            },
    {
        let mut flags: Vec<String> = Vec::new();
        if args.len() == 0 {
            return Ok(Cli { config_dir: None, verbose: 0, quiet: false, command: None });
        }
        let (top, k) = scan_args(&args, 1, &single_def("config-dir", true), false, true)?;
        append_string_vec(&mut flags, &top.flags);
        let config_dir = opt_text(&top, "config-dir")?;
        let command = if k < args.len() {
            Some(parse_command(&args, k, &mut flags)?)
        } else {
            None
        };
        let ghost fv = string_views(flags@);
        let mut verbose: u8 = 0;
        let mut quiet = false;
        let mut i: usize = 0;
        while i < flags.len()
            invariant
                i <= flags.len(),
                fv == string_views(flags@),
                verbose == capped(count_name(fv.subrange(0, i as int), "verbose"@)),
                quiet == (count_name(fv.subrange(0, i as int), "quiet"@) > 0),
            decreases flags.len() - i,
        {
            assert(fv.subrange(0, i + 1).drop_last() =~= fv.subrange(0, i as int));
            assert(fv[i as int] == flags@[i as int]@);
            if crate::text::eq_str(&flags[i], "verbose") && verbose < 255 {
                verbose = verbose + 1;
            }
            if crate::text::eq_str(&flags[i], "quiet") {
                quiet = true;
            }
            i += 1;
        }
        assert(fv.subrange(0, fv.len() as int) =~= fv);
        Ok(Cli { config_dir, verbose, quiet, command })
    }
}

/// How much is logged.
#[derive(Debug, Clone, Copy, PartialEq, Eq, Structural)]
pub enum LogLevel {
    Error,
    Info,
    Debug,
    Trace,
}

/// `desired_level`: errors only with `--quiet`; otherwise info, then debug with
/// one `-v`, trace with more.
pub fn desired_level(cli: &Cli) -> (r: LogLevel)
    ensures
        r == (if cli.quiet {
            LogLevel::Error
        } else if cli.verbose == 0 {
            LogLevel::Info
        } else if cli.verbose == 1 {
            LogLevel::Debug
        } else {
            LogLevel::Trace
        }),
{
    if cli.quiet {
        return LogLevel::Error;
    }
    match cli.verbose {
        0 => LogLevel::Info,
        1 => LogLevel::Debug,
        _ => LogLevel::Trace,
    }
}

} // verus!
