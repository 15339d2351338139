//! Splitting a combined account type such as "On Budget - Credit Card" into
//! its class and sub-type.
use vstd::prelude::*;
use vstd::string::StringExecFns;
use crate::text::{chars_of, contains_chars, equal_chars, lower_chars, lower_of, seq_contains};

verus! {

/// The Unicode White_Space property, which `char::is_whitespace` and
/// `str::trim` use.
pub open spec fn is_white_space(c: char) -> bool {
    ('\u{9}' <= c <= '\u{d}') || c == ' ' || c == '\u{85}' || c == '\u{a0}' || c == '\u{1680}' || (
    '\u{2000}' <= c <= '\u{200a}') || c == '\u{2028}' || c == '\u{2029}' || c == '\u{202f}' || c
        == '\u{205f}' || c == '\u{3000}'
}

pub open spec fn trim_lo(s: Seq<char>, i: int) -> int
    decreases s.len() - i,
{
    if 0 <= i < s.len() && is_white_space(s[i]) {
        trim_lo(s, i + 1)
    } else {
        i
    }
}

pub open spec fn trim_hi(s: Seq<char>, lo: int, j: int) -> int
    decreases j,
{
    if j > lo && j > 0 && is_white_space(s[j - 1]) {
        trim_hi(s, lo, j - 1)
    } else {
        j
    }
}

/// `s` without leading and trailing white space.
pub open spec fn trimmed(s: Seq<char>) -> Seq<char> {
    let lo = trim_lo(s, 0);
    s.subrange(lo, trim_hi(s, lo, s.len() as int))
}

/// " - " starts at position `i` of `s`.
pub open spec fn sep_at(s: Seq<char>, i: int) -> bool {
    0 <= i && i + 3 <= s.len() && s[i] == ' ' && s[i + 1] == '-' && s[i + 2] == ' '
}

/// Position of the first " - " at or after `start`, or -1.
pub open spec fn first_sep_from(s: Seq<char>, start: int) -> int
    decreases s.len() - start,
{
    if start < 0 || start + 3 > s.len() {
        -1
    } else if sep_at(s, start) {
        start
    } else {
        first_sep_from(s, start + 1)
    }
}

/// The non-empty trimmed pieces of `s` from `start` on, split at " - ".
pub open spec fn parts_from(s: Seq<char>, start: int) -> Seq<Seq<char>>
    decreases s.len() - start,
{
    if start < 0 || start > s.len() {
        Seq::empty()
    } else {
        let i = first_sep_from(s, start);
        let more = start <= i && i + 3 <= s.len();
        let seg = if more {
            s.subrange(start, i)
        } else {
            s.subrange(start, s.len() as int)
        };
        let head = if trimmed(seg).len() > 0 {
            seq![trimmed(seg)]
        } else {
            Seq::empty()
        };
        if more {
            head + parts_from(s, i + 3)
        } else {
            head
        }
    }
}

/// Class and sub-type of a combined account type: the first two non-empty
/// pieces of the trimmed text split at " - ", or the whole trimmed text and
/// no sub-type when there are fewer than two.
pub open spec fn account_type_parts(full: Seq<char>) -> (Seq<char>, Option<Seq<char>>) {
    let t = trimmed(full);
    let p = parts_from(t, 0);
    if p.len() > 1 {
        (p[0], Some(p[1]))
    } else {
        (t, None)
    }
}

/// Relies on `String`'s `FromIterator<char>`: the string of the characters `v`.
#[verifier::external_body]
fn string_of(v: &Vec<char>) -> (r: String)
    ensures
        r@ == v@,
{
    v.iter().collect()
}

fn is_white_space_exec(c: char) -> (r: bool)
    ensures
        r == is_white_space(c),
{
    ('\u{9}' <= c && c <= '\u{d}') || c == ' ' || c == '\u{85}' || c == '\u{a0}' || c == '\u{1680}'
        || ('\u{2000}' <= c && c <= '\u{200a}') || c == '\u{2028}' || c == '\u{2029}' || c
        == '\u{202f}' || c == '\u{205f}' || c == '\u{3000}'
}

/// The characters `s[start..end]`.
pub fn slice_of(s: &Vec<char>, start: usize, end: usize) -> (r: Vec<char>)
    requires
        start <= end <= s@.len(),
    ensures
        r@ == s@.subrange(start as int, end as int),
{
    let mut r: Vec<char> = Vec::new();
    let mut i: usize = start;
    while i < end
        invariant
            start <= i <= end <= s@.len(),
            r@ == s@.subrange(start as int, i as int),
        decreases end - i,
    {
        r.push(s[i]);
        proof {
            assert(s@.subrange(start as int, i + 1) =~= s@.subrange(start as int, i as int).push(s@[i as int]));
        }
        i = i + 1;
    }
    r
}

/// `s` without leading and trailing white space.
pub fn trim_chars(s: &Vec<char>) -> (r: Vec<char>)
    ensures
        r@ == trimmed(s@),
{
    let n = s.len();
    let mut lo: usize = 0;
    while lo < n && is_white_space_exec(s[lo])
        invariant
            lo <= n == s@.len(),
            trim_lo(s@, 0) == trim_lo(s@, lo as int),
        decreases n - lo,
    {
        lo = lo + 1;
    }
    let mut hi: usize = n;
    while hi > lo && is_white_space_exec(s[hi - 1])
        invariant
            lo <= hi <= n == s@.len(),
            trim_lo(s@, 0) == lo,
            trim_hi(s@, lo as int, n as int) == trim_hi(s@, lo as int, hi as int),
        decreases hi,
    {
        hi = hi - 1;
    }
    slice_of(s, lo, hi)
}

/// Position of the first " - " at or after `start`, if any.
fn find_sep(s: &Vec<char>, start: usize) -> (r: Option<usize>)
    requires
        start <= s@.len(),
    ensures
        match r {
            Some(i) => i == first_sep_from(s@, start as int) && start <= i && i + 3 <= s@.len(),
            None => first_sep_from(s@, start as int) == -1,
        },
{
    let n = s.len();
    let mut j: usize = start;
    while j < n && n - j >= 3
        invariant
            start <= j <= n == s@.len(),
            first_sep_from(s@, start as int) == first_sep_from(s@, j as int),
        decreases n - j,
    {
        if s[j] == ' ' && s[j + 1] == '-' && s[j + 2] == ' ' {
            return Some(j);
        }
        j = j + 1;
    }
    None
}

/// Splits a combined account type, "On Budget - Credit Card" giving
/// ("On Budget", Some("Credit Card")).
pub fn parse_account_type(full_type: &str) -> (r: (String, Option<String>))
    ensures
        r.0@ == account_type_parts(full_type@).0,
        r.1 matches Some(x) ==> account_type_parts(full_type@).1 == Some(x@),
        r.1 is None ==> account_type_parts(full_type@).1 is None,
{
    let raw = chars_of(full_type);
    let s = trim_chars(&raw);
    let n = s.len();
    let ghost mut done: Seq<Seq<char>> = Seq::empty();
    let mut first: Option<Vec<char>> = None;
    let mut second: Option<Vec<char>> = None;
    let mut pos: usize = 0;
    loop
        invariant_except_break
            parts_from(s@, 0) == done + parts_from(s@, pos as int),
        invariant
            pos <= n == s@.len(),
            done.len() == 0 ==> first is None && second is None,
            done.len() == 1 ==> (first is Some && first->Some_0@ == done[0] && second is None),
            done.len() >= 2 ==> (first is Some && first->Some_0@ == done[0] && second is Some
                && second->Some_0@ == done[1]),
        ensures
            parts_from(s@, 0) == done,
            done.len() == 0 ==> first is None && second is None,
            done.len() == 1 ==> (first is Some && first->Some_0@ == done[0] && second is None),
            done.len() >= 2 ==> (first is Some && first->Some_0@ == done[0] && second is Some
                && second->Some_0@ == done[1]),
        decreases n - pos,
    {
        let found = find_sep(&s, pos);
        let end = match found {
            Some(i) => i,
            None => n,
        };
        let seg = slice_of(&s, pos, end);
        let t = trim_chars(&seg);
        let ghost head = if t@.len() > 0 {
            seq![t@]
        } else {
            Seq::empty()
        };
        proof {
            let rest = if found is Some {
                parts_from(s@, end + 3)
            } else {
                Seq::empty()
            };
            assert(parts_from(s@, pos as int) == head + rest);
            assert(done + (head + rest) =~= (done + head) + rest);
        }
        if t.len() > 0 {
            proof {
                done = done.push(t@);
            }
            if first.is_none() {
                first = Some(t);
            } else if second.is_none() {
                second = Some(t);
            }
        }
        match found {
            Some(i) => {
                pos = i + 3;
            },
            None => {
                assert(done + Seq::<Seq<char>>::empty() =~= done);
                break;
            },
        }
    }
    match (first, second) {
        (Some(f), Some(g)) => (string_of(&f), Some(string_of(&g))),
        _ => (string_of(&s), None),
    }
}

/// The account class given to a Firefly III account type on import.
pub open spec fn imported_class(firefly_type: Seq<char>) -> Seq<char> {
    let l = lower_of(firefly_type);
    if l == "asset"@ {
        if seq_contains(l, "checking"@) || seq_contains(l, "savings"@) || seq_contains(
            l,
            "credit card"@,
        ) || seq_contains(l, "investment"@) {
            "On Budget"@
        } else {
            "Off Budget"@
        }
    } else if l == "loan"@ || l == "debt"@ || l == "liabilities"@ {
        "Off Budget"@
    } else {
        "External"@
    }
}

/// Maps a Firefly III account type, ignoring case, to an account class name.
pub fn map_account_type(firefly_type: &str) -> (r: String)
    ensures
        r@ == imported_class(firefly_type@),
{
    let l = lower_chars(firefly_type);
    if equal_chars(&l, &chars_of("asset")) {
        if contains_chars(&l, &chars_of("checking")) || contains_chars(&l, &chars_of("savings"))
            || contains_chars(&l, &chars_of("credit card")) || contains_chars(
            &l,
            &chars_of("investment"),
        ) {
            String::from_str("On Budget")
        } else {
            String::from_str("Off Budget")
        }
    } else if equal_chars(&l, &chars_of("loan")) || equal_chars(&l, &chars_of("debt"))
        || equal_chars(&l, &chars_of("liabilities")) {
        String::from_str("Off Budget")
    } else {
        String::from_str("External")
    }
}

} // verus!
