//! Pure file-name construction for saved artifacts.
//!
//! Result artifacts are written to a user-visible directory under
//! collision-avoiding names: the user-supplied base name is stripped of
//! its artifact suffix, cleaned of path-hostile characters, and suffixed
//! with a timestamp. The writing itself is unverified I/O; everything
//! that decides the name is here.

use vstd::prelude::*;

verus! {

/// Characters that must not appear in a file name.
pub open spec fn is_path_hostile(c: char) -> bool {
    c == '/' || c == '\\' || c == ':' || c == '*' || c == '?' || c == '"' || c == '<' || c == '>'
        || c == '|'
}

/// The name with every path-hostile character replaced by `'_'`.
pub open spec fn sanitized(s: Seq<char>) -> Seq<char> {
    s.map_values(
        |c: char|
            if is_path_hostile(c) {
                '_'
            } else {
                c
            },
    )
}

/// Relies on String::push: appends exactly one character.
#[verifier::external_body]
fn push_char(s: &mut String, c: char)
    ensures
        final(s)@ == old(s)@.push(c),
{
    s.push(c);
}

/// Replaces every path-hostile character of a user-supplied base name
/// with `'_'`.
pub fn sanitize_file_name(name: &str) -> (r: String)
    ensures
        r@ == sanitized(name@),
{
    let n = name.unicode_len();
    let mut out = String::new();
    let mut i: usize = 0;
    while i < n
        invariant
            n == name@.len(),
            i <= n,
            out@.len() == i,
            forall|j: int|
                0 <= j < i ==> out@[j] == (if is_path_hostile(name@[j]) {
                    '_'
                } else {
                    name@[j]
                }),
        decreases n - i,
    {
        let c = name.get_char(i);
        let mapped: char = if c == '/' || c == '\\' || c == ':' || c == '*' || c == '?' || c == '"'
            || c == '<' || c == '>' || c == '|' {
            '_'
        } else {
            c
        };
        push_char(&mut out, mapped);
        i += 1;
    }
    proof {
        assert forall|j: int| 0 <= j < n implies out@[j] == sanitized(name@)[j] by {}
        assert(out@ =~= sanitized(name@));
    }
    out
}

/// The name with every trailing repetition of `suf` removed.
pub open spec fn spec_strip_suffix(s: Seq<char>, suf: Seq<char>) -> Seq<char>
    decreases s.len(),
{
    if suf.len() > 0 && s.len() >= suf.len() && s.subrange(s.len() - suf.len(), s.len() as int)
        == suf {
        spec_strip_suffix(s.take(s.len() - suf.len()), suf)
    } else {
        s
    }
}

/// Whether `name`'s first `end` characters end with `suffix`.
fn suffix_matches(name: &str, end: usize, suffix: &str, m: usize) -> (r: bool)
    requires
        m == suffix@.len(),
        m <= end <= name@.len(),
    ensures
        r == (name@.subrange(end - suffix@.len(), end as int) == suffix@),
{
    let mut j: usize = 0;
    while j < m
        invariant
            m == suffix@.len(),
            m <= end <= name@.len(),
            j <= m,
            forall|k: int| 0 <= k < j ==> name@[end - m + k] == suffix@[k],
        decreases m - j,
    {
        if name.get_char(end - m + j) != suffix.get_char(j) {
            proof {
                assert(name@.subrange(end - m, end as int)[j as int] == name@[end - m + j]);
            }
            return false;
        }
        j += 1;
    }
    proof {
        assert(name@.subrange(end - m, end as int) =~= suffix@);
    }
    true
}

/// Removes every trailing repetition of `suffix` from `name`, as the
/// artifact savers do before appending their own suffix.
pub fn strip_suffix_repeated(name: &str, suffix: &str) -> (r: String)
    ensures
        r@ == spec_strip_suffix(name@, suffix@),
{
    let n = name.unicode_len();
    let m = suffix.unicode_len();
    if m == 0 {
        proof {
            assert(spec_strip_suffix(name@, suffix@) == name@);
        }
        return name.to_owned();
    }
    let mut end: usize = n;
    proof {
        assert(name@.take(n as int) =~= name@);
    }
    while end >= m && suffix_matches(name, end, suffix, m)
        invariant
            n == name@.len(),
            m == suffix@.len(),
            m >= 1,
            end <= n,
            spec_strip_suffix(name@, suffix@) == spec_strip_suffix(name@.take(end as int), suffix@),
        decreases end,
    {
        proof {
            let cur = name@.take(end as int);
            assert(cur.subrange(cur.len() - m, cur.len() as int) =~= name@.subrange(
                end - m,
                end as int,
            ));
            assert(cur.take(cur.len() - m) =~= name@.take(end - m));
            assert(spec_strip_suffix(cur, suffix@) == spec_strip_suffix(
                name@.take(end - m),
                suffix@,
            ));
        }
        end = end - m;
    }
    proof {
        let cur = name@.take(end as int);
        if end >= m {
            assert(cur.subrange(cur.len() - m, cur.len() as int) =~= name@.subrange(
                end - m,
                end as int,
            ));
        }
        assert(spec_strip_suffix(cur, suffix@) == cur);
    }
    let r = name.substring_char(0, end);
    proof {
        assert(r@ =~= name@.take(end as int));
    }
    r.to_owned()
}

/// The decimal digit characters of a number, most significant first.
pub open spec fn dec_digits(n: int) -> Seq<char>
    decreases n,
{
    if n < 10 {
        seq![digit_char(n)]
    } else {
        dec_digits(n / 10) + seq![digit_char(n % 10)]
    }
}

/// The character of one decimal digit.
pub open spec fn digit_char(d: int) -> char {
    if d == 0 {
        '0'
    } else if d == 1 {
        '1'
    } else if d == 2 {
        '2'
    } else if d == 3 {
        '3'
    } else if d == 4 {
        '4'
    } else if d == 5 {
        '5'
    } else if d == 6 {
        '6'
    } else if d == 7 {
        '7'
    } else if d == 8 {
        '8'
    } else {
        '9'
    }
}

/// Appends the decimal rendering of `n`.
fn push_decimal(out: &mut String, n: u64)
    ensures
        final(out)@ == old(out)@ + dec_digits(n as int),
    decreases n,
{
    if n >= 10 {
        push_decimal(out, n / 10);
    }
    let d = n % 10;
    let c: char = if d == 0 {
        '0'
    } else if d == 1 {
        '1'
    } else if d == 2 {
        '2'
    } else if d == 3 {
        '3'
    } else if d == 4 {
        '4'
    } else if d == 5 {
        '5'
    } else if d == 6 {
        '6'
    } else if d == 7 {
        '7'
    } else if d == 8 {
        '8'
    } else {
        '9'
    };
    proof {
        assert(c == digit_char(n as int % 10));
        if n < 10 {
            assert(n as int % 10 == n as int);
            assert(dec_digits(n as int) == seq![digit_char(n as int)]);
        }
    }
    push_char(out, c);
    proof {
        assert(final(out)@ =~= old(out)@ + dec_digits(n as int));
    }
}

/// The decimal rendering of a timestamp.
pub fn u64_to_decimal(n: u64) -> (r: String)
    ensures
        r@ == dec_digits(n as int),
{
    let mut out = String::new();
    push_decimal(&mut out, n);
    proof {
        assert(out@ =~= dec_digits(n as int));
    }
    out
}

/// The collision-avoiding name of a saved dictionary: the suggested name
/// without its `.csv` suffix, sanitized, then tagged and timestamped.
pub fn dictionary_file_name(suggested: &str, timestamp: u64) -> (r: String)
    ensures
        r@ == sanitized(spec_strip_suffix(suggested@, ".csv"@)) + "_dictionary_"@ + dec_digits(
            timestamp as int,
        ) + ".csv"@,
{
    let base = strip_suffix_repeated(suggested, ".csv");
    let mut out = sanitize_file_name(base.as_str());
    out.append("_dictionary_");
    push_decimal(&mut out, timestamp);
    out.append(".csv");
    proof {
        assert(out@ =~= sanitized(spec_strip_suffix(suggested@, ".csv"@)) + "_dictionary_"@
            + dec_digits(timestamp as int) + ".csv"@);
    }
    out
}

/// The collision-avoiding name of a saved subtitle file: the suggested
/// name without its `.srt` suffix, sanitized, then timestamped.
pub fn srt_file_name(suggested: &str, timestamp: u64) -> (r: String)
    ensures
        r@ == sanitized(spec_strip_suffix(suggested@, ".srt"@)) + "_"@ + dec_digits(
            timestamp as int,
        ) + ".srt"@,
{
    let base = strip_suffix_repeated(suggested, ".srt");
    let mut out = sanitize_file_name(base.as_str());
    out.append("_");
    push_decimal(&mut out, timestamp);
    out.append(".srt");
    proof {
        assert(out@ =~= sanitized(spec_strip_suffix(suggested@, ".srt"@)) + "_"@ + dec_digits(
            timestamp as int,
        ) + ".srt"@);
    }
    out
}

} // verus!
