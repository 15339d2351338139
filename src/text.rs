//! Text primitives of the rule engine: case folding, substring tests,
//! UUID text and decimal literals.
use vstd::prelude::*;
use vstd::std_specs::iter::IteratorSpec;

verus! {

broadcast use vstd::string::axiom_spec_iter, vstd::string::next_postcondition;

/// The characters of `s`, in order.
pub fn chars_of(s: &str) -> (r: Vec<char>)
    ensures
        r@ == s@,
{
    let mut v: Vec<char> = Vec::new();
    let mut it = s.chars();
    loop
        invariant
            v@ + it.remaining() == s@,
            it.obeys_prophetic_iter_laws(),
            it.decrease() is Some,
        ensures
            v@ == s@,
        decreases it.decrease()->Some_0,
    {
        match it.next() {
            Some(c) => {
                v.push(c);
            },
            None => {
                assert(v@ + it.remaining() =~= v@);
                break;
            },
        }
    }
    v
}

/// Lower-case form of a text, as `str::to_lowercase` computes it.
pub uninterp spec fn lower_of(s: Seq<char>) -> Seq<char>;

/// Relies on `str::to_lowercase`: the Unicode lower-case mapping of `s`,
/// which depends on the characters of `s` alone.
#[verifier::external_body]
fn lowercase(s: &str) -> (r: String)
    ensures
        r@ == lower_of(s@),
{
    s.to_lowercase()
}

/// The lower-case characters of `s`.
pub fn lower_chars(s: &str) -> (r: Vec<char>)
    ensures
        r@ == lower_of(s@),
{
    let l = lowercase(s);
    chars_of(l.as_str())
}

/// `needle` occurs in `hay` at position `i`.
pub open spec fn occurs_at(hay: Seq<char>, needle: Seq<char>, i: int) -> bool {
    0 <= i && i + needle.len() <= hay.len() && hay.subrange(i, i + needle.len()) == needle
}

pub open spec fn seq_contains(hay: Seq<char>, needle: Seq<char>) -> bool {
    exists|i: int| occurs_at(hay, needle, i)
}

pub open spec fn seq_starts_with(hay: Seq<char>, prefix: Seq<char>) -> bool {
    occurs_at(hay, prefix, 0)
}

/// Whether `needle` occurs in `hay` at position `i`.
pub fn matches_at(hay: &Vec<char>, needle: &Vec<char>, i: usize) -> (r: bool)
    ensures
        r == occurs_at(hay@, needle@, i as int),
{
    if i > hay.len() || needle.len() > hay.len() - i {
        return false;
    }
    let mut j: usize = 0;
    while j < needle.len()
        invariant
            i + needle@.len() <= hay@.len() <= usize::MAX,
            j <= needle@.len(),
            forall|k: int| 0 <= k < j ==> hay@[i + k] == needle@[k],
        decreases needle@.len() - j,
    {
        if hay[i + j] != needle[j] {
            assert(hay@.subrange(i as int, i + needle@.len())[j as int] != needle@[j as int]);
            return false;
        }
        j = j + 1;
    }
    assert(hay@.subrange(i as int, i + needle@.len()) =~= needle@);
    true
}

/// Whether `needle` occurs anywhere in `hay`.
pub fn contains_chars(hay: &Vec<char>, needle: &Vec<char>) -> (r: bool)
    ensures
        r == seq_contains(hay@, needle@),
{
    if needle.len() > hay.len() {
        return false;
    }
    let last = hay.len() - needle.len();
    let mut i: usize = 0;
    loop
        invariant
            needle@.len() <= hay@.len(),
            last == hay@.len() - needle@.len(),
            i <= last,
            forall|k: int| 0 <= k < i ==> !occurs_at(hay@, needle@, k),
        decreases last - i,
    {
        if matches_at(hay, needle, i) {
            return true;
        }
        if i == last {
            return false;
        }
        i = i + 1;
    }
}

pub fn equal_chars(a: &Vec<char>, b: &Vec<char>) -> (r: bool)
    ensures
        r == (a@ == b@),
{
    if a.len() != b.len() {
        return false;
    }
    let r = matches_at(a, b, 0);
    proof {
        assert(a@.subrange(0, b@.len() as int) =~= a@);
    }
    r
}

pub open spec fn hex_alphabet() -> Seq<char> {
    seq!['0', '1', '2', '3', '4', '5', '6', '7', '8', '9', 'a', 'b', 'c', 'd', 'e', 'f']
}

/// The `n` lowest hexadecimal digits of `v` in lower case, most significant first.
pub open spec fn hex_digits(v: nat, n: nat) -> Seq<char>
    decreases n,
{
    if n == 0 {
        Seq::empty()
    } else {
        hex_digits(v / 16, (n - 1) as nat).push(hex_alphabet()[(v % 16) as int])
    }
}

/// The hyphenated lower-case text of a UUID, `xxxxxxxx-xxxx-xxxx-xxxx-xxxxxxxxxxxx`.
pub open spec fn uuid_text(id: u128) -> Seq<char> {
    let h = hex_digits(id as nat, 32);
    h.subrange(0, 8) + seq!['-'] + h.subrange(8, 12) + seq!['-'] + h.subrange(12, 16) + seq!['-']
        + h.subrange(16, 20) + seq!['-'] + h.subrange(20, 32)
}

/// Relies on `uuid::Uuid::from_u128` and `Uuid`'s `Display`, which writes the
/// hyphenated lower-case form of the 128-bit value, big-endian.
#[verifier::external_body]
pub(crate) fn uuid_string(id: u128) -> (r: String)
    ensures
        r@ == uuid_text(id),
{
    uuid::Uuid::from_u128(id).to_string()
}

/// The value that `uuid::Uuid::parse_str` reads from a text, if any.
pub uninterp spec fn uuid_parse_of(s: Seq<char>) -> Option<u128>;

/// Relies on `uuid::Uuid::parse_str` (simple, hyphenated, braced or URN
/// form) and `Uuid::as_u128`; the result depends on the text alone.
#[verifier::external_body]
pub(crate) fn parse_uuid(s: &str) -> (r: Option<u128>)
    ensures
        r == uuid_parse_of(s@),
{
    match uuid::Uuid::parse_str(s) {
        Ok(u) => Some(u.as_u128()),
        Err(_) => None,
    }
}

pub open spec fn is_digit(c: char) -> bool {
    '0' <= c <= '9'
}

pub open spec fn all_digits(s: Seq<char>) -> bool {
    forall|i: int| 0 <= i < s.len() ==> is_digit(#[trigger] s[i])
}

/// The natural number written by the decimal digits `s`.
pub open spec fn digits_value(s: Seq<char>) -> int
    decreases s.len(),
{
    if s.len() == 0 {
        0
    } else {
        digits_value(s.drop_last()) * 10 + (s.last() as int - '0' as int)
    }
}

pub open spec fn pow10(n: nat) -> int
    decreases n,
{
    if n == 0 {
        1
    } else {
        10 * pow10((n - 1) as nat)
    }
}

/// Position of the first '.' in `s`, or its length.
pub open spec fn dot_index(s: Seq<char>) -> int
    decreases s.len(),
{
    if s.len() == 0 {
        0
    } else if s[0] == '.' {
        0
    } else {
        1 + dot_index(s.drop_first())
    }
}

pub open spec fn unsigned_part(s: Seq<char>) -> Seq<char> {
    if s.len() > 0 && (s[0] == '-' || s[0] == '+') {
        s.drop_first()
    } else {
        s
    }
}

/// Number of digits from the first non-zero one on.
pub open spec fn significant_len(s: Seq<char>) -> nat
    decreases s.len(),
{
    if s.len() == 0 {
        0
    } else if significant_len(s.drop_last()) == 0 && s.last() == '0' {
        0
    } else {
        significant_len(s.drop_last()) + 1
    }
}

/// A decimal literal: an optional sign, digits with at most one '.', at
/// least one digit and at most 18 significant ones. Its value is `m / 10^k` for the
/// returned `(m, k)`.
pub open spec fn decimal_of(s: Seq<char>) -> Option<(int, nat)> {
    let u = unsigned_part(s);
    let p = dot_index(u);
    let ip = u.take(p);
    let fp = if p < u.len() {
        u.skip(p + 1)
    } else {
        Seq::empty()
    };
    if all_digits(ip) && all_digits(fp) && 1 <= ip.len() + fp.len() && significant_len(ip + fp) <= 18 {
        let m = digits_value(ip + fp);
        Some((if s.len() > 0 && s[0] == '-' { -m } else { m }, fp.len()))
    } else {
        None
    }
}

proof fn lemma_digits_push(s: Seq<char>, c: char)
    ensures
        digits_value(s.push(c)) == digits_value(s) * 10 + (c as int - '0' as int),
{
    assert(s.push(c).drop_last() =~= s);
}

proof fn lemma_digits_bound(s: Seq<char>)
    requires
        all_digits(s),
    ensures
        0 <= digits_value(s) < pow10(s.len()),
    decreases s.len(),
{
    if s.len() > 0 {
        let d = s.drop_last();
        assert(all_digits(d)) by {
            assert forall|i: int| 0 <= i < d.len() implies is_digit(#[trigger] d[i]) by {
                assert(d[i] == s[i]);
            }
        }
        lemma_digits_bound(d);
        assert(is_digit(s[s.len() - 1]));
        let v = digits_value(d);
        let p = pow10(d.len());
        assert(v * 10 + 9 < p * 10) by (nonlinear_arith)
            requires
                0 <= v < p,
        ;
    }
}

pub proof fn lemma_pow10_values()
    ensures
        pow10(3) == 1000,
        pow10(17) == 100_000_000_000_000_000,
        pow10(18) == 1_000_000_000_000_000_000,
        pow10(19) == 10_000_000_000_000_000_000,
        pow10(21) == 1_000_000_000_000_000_000_000,
{
    reveal_with_fuel(pow10, 22);
}

/// 10^(a+b) = 10^a * 10^b.
pub proof fn lemma_pow10_add(a: nat, b: nat)
    ensures
        pow10(a + b) == pow10(a) * pow10(b),
    decreases b,
{
    if b > 0 {
        lemma_pow10_add(a, (b - 1) as nat);
        assert(pow10(a + b) == 10 * pow10((a + b - 1) as nat));
        assert(pow10(a) * (10 * pow10((b - 1) as nat)) == 10 * (pow10(a) * pow10((b - 1) as nat)))
            by (nonlinear_arith);
    }
}

proof fn lemma_digits_significant_bound(s: Seq<char>)
    requires
        all_digits(s),
    ensures
        0 <= digits_value(s) < pow10(significant_len(s)),
    decreases s.len(),
{
    if s.len() > 0 {
        let d = s.drop_last();
        assert(all_digits(d)) by {
            assert forall|i: int| 0 <= i < d.len() implies is_digit(#[trigger] d[i]) by {
                assert(d[i] == s[i]);
            }
        }
        lemma_digits_significant_bound(d);
        assert(is_digit(s[s.len() - 1]));
        let v = digits_value(d);
        let p = pow10(significant_len(d));
        assert(v * 10 + 9 < p * 10) by (nonlinear_arith)
            requires
                0 <= v < p,
        ;
        if significant_len(d) == 0 {
            assert(pow10(0) == 1);
        }
    }
}

/// Reading state of a digit sequence `x`: either more than 18 significant
/// digits were seen, or `sig` and `m` are its significant length and value.
pub open spec fn digits_state(x: Seq<char>, m: i64, sig: usize, too_long: bool) -> bool {
    &&& all_digits(x)
    &&& too_long ==> significant_len(x) > 18
    &&& !too_long ==> sig == significant_len(x) && sig <= 18 && m == digits_value(x)
}

/// Reads one more digit `c`.
fn digit_step(m: i64, sig: usize, too_long: bool, c: char, x: Ghost<Seq<char>>) -> (r: (i64, usize, bool))
    requires
        is_digit(c),
        digits_state(x@, m, sig, too_long),
    ensures
        digits_state(x@.push(c), r.0, r.1, r.2),
{
    let ghost y = x@.push(c);
    proof {
        assert(y.drop_last() =~= x@);
        assert(y.last() == c);
        assert(all_digits(y)) by {
            assert forall|i: int| 0 <= i < y.len() implies is_digit(#[trigger] y[i]) by {
                if i < x@.len() {
                    assert(y[i] == x@[i]);
                }
            }
        }
        lemma_digits_push(x@, c);
    }
    if too_long {
        return (m, sig, true);
    }
    let nsig: usize = if sig == 0 && c == '0' {
        0
    } else {
        sig + 1
    };
    if nsig > 18 {
        return (m, sig, true);
    }
    proof {
        lemma_digits_significant_bound(x@);
        lemma_pow10_mono(sig as nat, 17);
        lemma_pow10_values();
        if sig == 0 {
            assert(pow10(0) == 1);
        }
    }
    (m * 10 + (c as i64 - '0' as i64), nsig, false)
}

pub proof fn lemma_pow10_mono(a: nat, b: nat)
    requires
        a <= b,
    ensures
        1 <= pow10(a) <= pow10(b),
    decreases b,
{
    if b > 0 {
        if a < b {
            lemma_pow10_mono(a, (b - 1) as nat);
        } else {
            lemma_pow10_mono((a - 1) as nat, (b - 1) as nat);
        }
    }
}

proof fn lemma_dot_index(s: Seq<char>, k: int)
    requires
        0 <= k <= s.len(),
        forall|j: int| 0 <= j < k ==> s[j] != '.',
        k == s.len() || s[k] == '.',
    ensures
        dot_index(s) == k,
    decreases s.len(),
{
    if s.len() > 0 && k > 0 {
        let t = s.drop_first();
        assert forall|j: int| 0 <= j < k - 1 implies t[j] != '.' by {
            assert(t[j] == s[j + 1]);
        }
        if k < s.len() {
            assert(t[k - 1] == s[k]);
        }
        lemma_dot_index(t, k - 1);
    }
}

/// 10 to the power `n`, for `n <= 18`.
pub fn pow10_exec(n: u32) -> (r: i128)
    requires
        n <= 18,
    ensures
        r == pow10(n as nat),
        1 <= r <= 1_000_000_000_000_000_000,
{
    let mut r: i128 = 1;
    let mut i: u32 = 0;
    while i < n
        invariant
            i <= n <= 18,
            r == pow10(i as nat),
            1 <= r <= pow10(i as nat),
        decreases n - i,
    {
        proof {
            lemma_pow10_mono(i as nat, 17);
            lemma_pow10_mono((i + 1) as nat, 18);
            lemma_pow10_values();
        }
        r = r * 10;
        i = i + 1;
    }
    proof {
        lemma_pow10_mono(n as nat, 18);
        lemma_pow10_values();
    }
    r
}

/// Reads a decimal literal as `decimal_of` describes it.
pub fn parse_decimal(s: &Vec<char>) -> (r: Option<(i64, usize)>)
    ensures
        match decimal_of(s@) {
            Some((m, k)) => r is Some && r->Some_0.0 == m && r->Some_0.1 == k,
            None => r is None,
        },
        r is Some ==> -1_000_000_000_000_000_000 < r->Some_0.0 < 1_000_000_000_000_000_000
            && r->Some_0.1 <= s@.len(),
{
    let n = s.len();
    let start: usize = if n > 0 && (s[0] == '-' || s[0] == '+') {
        1
    } else {
        0
    };
    let neg = n > 0 && s[0] == '-';
    let ghost u = unsigned_part(s@);
    assert(u =~= s@.skip(start as int));
    let mut p: usize = start;
    while p < n && s[p] != '.'
        invariant
            start <= p <= n == s@.len(),
            forall|j: int| start <= j < p ==> s@[j] != '.',
        decreases n - p,
    {
        p = p + 1;
    }
    proof {
        lemma_dot_index(u, p - start);
    }
    let ghost ip = u.take(p - start);
    let ghost fp = if p < n {
        u.skip(p - start + 1)
    } else {
        Seq::empty()
    };
    let total: usize = (p - start) + if p < n {
        n - p - 1
    } else {
        0
    };
    assert(ip.len() + fp.len() == total);
    if total < 1 {
        return None;
    }
    let mut m: i64 = 0;
    let mut sig: usize = 0;
    let mut too_long = false;
    let mut i: usize = start;
    assert(ip.take(0) =~= Seq::<char>::empty());
    while i < p
        invariant
            start <= i <= p <= n == s@.len(),
            u =~= s@.skip(start as int),
            ip == u.take(p - start),
            digits_state(ip.take(i - start), m, sig, too_long),
            u == unsigned_part(s@),
            dot_index(u) == p - start,
            fp == (if p < n {
                u.skip(p - start + 1)
            } else {
                Seq::empty()
            }),
        decreases p - i,
    {
        let c = s[i];
        if c < '0' || c > '9' {
            assert(ip[i - start] == c);
            return None;
        }
        assert(ip.take(i - start + 1) =~= ip.take(i - start).push(c));
        let st = digit_step(m, sig, too_long, c, Ghost(ip.take(i - start)));
        m = st.0;
        sig = st.1;
        too_long = st.2;
        i = i + 1;
    }
    assert(ip.take(p - start) =~= ip);
    let mut j: usize = if p < n {
        p + 1
    } else {
        n
    };
    let fstart: usize = j;
    assert(ip + fp.take(0) =~= ip);
    while j < n
        invariant
            fstart <= j <= n == s@.len(),
            start <= p <= n,
            p < n ==> fstart == p + 1,
            p >= n ==> fstart == n,
            u =~= s@.skip(start as int),
            fp.len() == n - fstart,
            u == unsigned_part(s@),
            dot_index(u) == p - start,
            fp == (if p < n {
                u.skip(p - start + 1)
            } else {
                Seq::empty()
            }),
            ip == u.take(p - start),
            p < n ==> fp == u.skip(p - start + 1),
            all_digits(ip),
            digits_state(ip + fp.take(j - fstart), m, sig, too_long),
        decreases n - j,
    {
        let c = s[j];
        assert(fp[j - fstart] == c);
        if c < '0' || c > '9' {
            return None;
        }
        assert(ip + fp.take(j - fstart + 1) =~= (ip + fp.take(j - fstart)).push(c));
        let st = digit_step(m, sig, too_long, c, Ghost(ip + fp.take(j - fstart)));
        m = st.0;
        sig = st.1;
        too_long = st.2;
        j = j + 1;
    }
    assert(fp.take(fp.len() as int) =~= fp);
    if too_long {
        return None;
    }
    proof {
        assert(all_digits(fp)) by {
            assert forall|x: int| 0 <= x < fp.len() implies is_digit(#[trigger] fp[x]) by {
                assert((ip + fp)[ip.len() + x] == fp[x]);
            }
        }
        lemma_digits_significant_bound(ip + fp);
        lemma_pow10_mono(sig as nat, 18);
        lemma_pow10_values();
    }
    let k: usize = n - fstart;
    if neg {
        Some((-m, k))
    } else {
        Some((m, k))
    }
}

/// The ASCII capital of the lower-case letters of the infinity words.
pub open spec fn capital_of(l: char) -> char {
    if l == 'i' {
        'I'
    } else if l == 'n' {
        'N'
    } else if l == 'f' {
        'F'
    } else if l == 't' {
        'T'
    } else if l == 'y' {
        'Y'
    } else {
        l
    }
}

/// `u` spells the lower-case word `w`, each letter in either case.
pub open spec fn word_is(u: Seq<char>, w: Seq<char>) -> bool {
    u.len() == w.len() && forall|i: int| 0 <= i < u.len() ==> u[i] == w[i] || u[i] == capital_of(w[i])
}

pub open spec fn sign_of(s: Seq<char>) -> int {
    if s.len() > 0 && s[0] == '-' {
        -1
    } else {
        1
    }
}

/// 1 or -1 for an infinity literal ("inf" or "infinity" in any case, with an
/// optional sign), 0 otherwise.
pub open spec fn infinity_sign(s: Seq<char>) -> int {
    let u = unsigned_part(s);
    if word_is(u, "inf"@) || word_is(u, "infinity"@) {
        sign_of(s)
    } else {
        0
    }
}

/// Position of the first 'e' or 'E' in `s`, or its length.
pub open spec fn exp_index(s: Seq<char>) -> int
    decreases s.len(),
{
    if s.len() == 0 {
        0
    } else if s[0] == 'e' || s[0] == 'E' {
        0
    } else {
        1 + exp_index(s.drop_first())
    }
}

/// The value of an exponent: an optional sign and at least one digit.
pub open spec fn exponent_of(x: Seq<char>) -> Option<int> {
    let d = unsigned_part(x);
    if d.len() >= 1 && all_digits(d) {
        Some(sign_of(x) * digits_value(d))
    } else {
        None
    }
}

/// A finite number literal: a decimal literal as `decimal_of` reads it,
/// optionally followed by 'e' or 'E' and an exponent. Its value is
/// `m * 10^e` for the returned `(m, e)`.
pub open spec fn finite_of(s: Seq<char>) -> Option<(int, int)> {
    let u = unsigned_part(s);
    let x = exp_index(u);
    match decimal_of(s.take(s.len() - u.len() + x)) {
        None => None,
        Some((m, k)) => if x < u.len() {
            match exponent_of(u.skip(x + 1)) {
                Some(ex) => Some((m, ex - k)),
                None => None,
            }
        } else {
            Some((m, -k))
        },
    }
}

/// A number literal read for comparison.
#[derive(Debug, Clone, Copy, PartialEq, Eq)]
pub enum AmountValue {
    /// `m * 10^e`; `e` is exact, or on the same side of 19 or -21 as the
    /// exact exponent.
    Finite(i64, i128),
    PosInf,
    NegInf,
    Invalid,
}

fn capital_exec(l: char) -> (r: char)
    ensures
        r == capital_of(l),
{
    if l == 'i' {
        'I'
    } else if l == 'n' {
        'N'
    } else if l == 'f' {
        'F'
    } else if l == 't' {
        'T'
    } else if l == 'y' {
        'Y'
    } else {
        l
    }
}

fn word_at(s: &Vec<char>, start: usize, w: &Vec<char>) -> (r: bool)
    requires
        start <= s@.len(),
    ensures
        r == word_is(s@.skip(start as int), w@),
{
    if s.len() - start != w.len() {
        return false;
    }
    let mut i: usize = 0;
    while i < w.len()
        invariant
            start <= s@.len(),
            s@.len() - start == w@.len(),
            i <= w@.len(),
            s@.len() <= usize::MAX,
            forall|j: int| 0 <= j < i ==> s@.skip(start as int)[j] == w@[j] || s@.skip(start as int)[j] == capital_of(w@[j]),
        decreases w@.len() - i,
    {
        let c = s[start + i];
        assert(s@.skip(start as int)[i as int] == c);
        if c != w[i] && c != capital_exec(w[i]) {
            return false;
        }
        i = i + 1;
    }
    true
}

proof fn lemma_exp_index(s: Seq<char>, k: int)
    requires
        0 <= k <= s.len(),
        forall|j: int| 0 <= j < k ==> s[j] != 'e' && s[j] != 'E',
        k == s.len() || s[k] == 'e' || s[k] == 'E',
    ensures
        exp_index(s) == k,
    decreases s.len(),
{
    if s.len() > 0 && k > 0 {
        let t = s.drop_first();
        assert forall|j: int| 0 <= j < k - 1 implies t[j] != 'e' && t[j] != 'E' by {
            assert(t[j] == s[j + 1]);
        }
        if k < s.len() {
            assert(t[k - 1] == s[k]);
        }
        lemma_exp_index(t, k - 1);
    }
}

proof fn lemma_digits_grow(s: Seq<char>, c: char)
    requires
        all_digits(s),
        is_digit(c),
    ensures
        digits_value(s.push(c)) >= digits_value(s) >= 0,
{
    lemma_digits_push(s, c);
    lemma_digits_bound(s);
}

/// Reads a number literal: an infinity, or `finite_of`'s form with at most
/// 18 significant mantissa digits. Exponents far beyond the length of the
/// text are clamped, which keeps them on the same side of every bound a
/// comparison uses.
pub fn parse_amount_value(s: &Vec<char>) -> (r: AmountValue)
    ensures
        infinity_sign(s@) == 1 <==> r == AmountValue::PosInf,
        infinity_sign(s@) == -1 <==> r == AmountValue::NegInf,
        infinity_sign(s@) == 0 ==> match finite_of(s@) {
            Some((m, e)) => r matches AmountValue::Finite(mm, ee) && mm == m && (ee == e || (ee >= 19
                && e >= 19) || (ee <= -21 && e <= -21)) && -1_000_000_000_000_000_000 < mm
                < 1_000_000_000_000_000_000,
            None => r == AmountValue::Invalid,
        },
{
    let n = s.len();
    let start: usize = if n > 0 && (s[0] == '-' || s[0] == '+') {
        1
    } else {
        0
    };
    let neg = n > 0 && s[0] == '-';
    let ghost u = unsigned_part(s@);
    assert(u =~= s@.skip(start as int));
    proof {
        reveal_strlit("inf");
        reveal_strlit("infinity");
    }
    if word_at(s, start, &chars_of("inf")) || word_at(s, start, &chars_of("infinity")) {
        return if neg {
            AmountValue::NegInf
        } else {
            AmountValue::PosInf
        };
    }
    assert(infinity_sign(s@) == 0);
    let mut x: usize = start;
    while x < n && s[x] != 'e' && s[x] != 'E'
        invariant
            start <= x <= n == s@.len(),
            forall|j: int| start <= j < x ==> s@[j] != 'e' && s@[j] != 'E',
        decreases n - x,
    {
        x = x + 1;
    }
    proof {
        assert forall|j: int| 0 <= j < x - start implies u[j] != 'e' && u[j] != 'E' by {
            assert(u[j] == s@[j + start]);
        }
        lemma_exp_index(u, x - start);
    }
    let mant = crate::account_type::slice_of(s, 0, x);
    assert(mant@ =~= s@.take(s@.len() - u.len() + (x - start)));
    let (m, k) = match parse_decimal(&mant) {
        None => return AmountValue::Invalid,
        Some(p) => p,
    };
    if x == n {
        return AmountValue::Finite(m, -(k as i128));
    }
    let ghost xs = u.skip(x - start + 1);
    assert(xs =~= s@.skip(x + 1));
    let limit: i128 = n as i128 + 1_000_000_000;
    match parse_exponent(s, x + 1, limit) {
        None => AmountValue::Invalid,
        Some(ex) => AmountValue::Finite(m, ex - (k as i128)),
    }
}

/// Reads an exponent (an optional sign and at least one digit) from
/// position `from` to the end; magnitudes from `limit` on are clamped.
fn parse_exponent(s: &Vec<char>, from: usize, limit: i128) -> (r: Option<i128>)
    requires
        from <= s@.len(),
        1 <= limit <= 100_000_000_000_000_000_000_000,
    ensures
        match exponent_of(s@.skip(from as int)) {
            Some(ex) => r is Some && -10 * limit <= r->Some_0 <= 10 * limit && (r->Some_0 == ex
                || (ex >= limit && r->Some_0 >= limit) || (ex <= -limit && r->Some_0 <= -limit)),
            None => r is None,
        },
{
    let n = s.len();
    let ghost xs = s@.skip(from as int);
    let mut j: usize = from;
    let eneg = j < n && s[j] == '-';
    if j < n && (s[j] == '-' || s[j] == '+') {
        j = j + 1;
    }
    let j0 = j;
    let ghost d = unsigned_part(xs);
    assert(d =~= s@.skip(j0 as int));
    assert(eneg == (sign_of(xs) == -1));
    if j0 == n {
        return None;
    }
    let mut ev: i128 = 0;
    assert(d.take(0) =~= Seq::<char>::empty());
    while j < n
        invariant
            j0 <= j <= n == s@.len(),
            d =~= s@.skip(j0 as int),
            d == unsigned_part(s@.skip(from as int)),
            eneg == (sign_of(s@.skip(from as int)) == -1),
            all_digits(d.take(j - j0)),
            1 <= limit <= 100_000_000_000_000_000_000_000,
            0 <= ev <= 10 * limit,
            digits_value(d.take(j - j0)) < limit ==> ev == digits_value(d.take(j - j0)),
            digits_value(d.take(j - j0)) >= limit ==> ev >= limit,
        decreases n - j,
    {
        let c = s[j];
        assert(d[j - j0] == c);
        if c < '0' || c > '9' {
            assert(!is_digit(d[j - j0]));
            return None;
        }
        proof {
            let p = d.take(j - j0);
            assert(d.take(j - j0 + 1) =~= p.push(c));
            lemma_digits_grow(p, c);
            lemma_digits_push(p, c);
            assert(all_digits(d.take(j - j0 + 1)));
        }
        if ev < limit {
            ev = ev * 10 + (c as i128 - '0' as i128);
        }
        j = j + 1;
    }
    assert(d.take(d.len() as int) =~= d);
    if eneg {
        Some(-ev)
    } else {
        Some(ev)
    }
}

} // verus!
