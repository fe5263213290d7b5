//! Character-level helpers: conversions between `str` and `Vec<char>`,
//! comparison, substring search, decimal formatting, and the few
//! standard-library string functions the viewer relies on.

use vstd::prelude::*;

verus! {

/// What `str::to_lowercase` returns for a string (the Unicode lowercase mapping).
pub uninterp spec fn lowercase(s: Seq<char>) -> Seq<char>;

/// Whether `c` is whitespace as `char::is_whitespace` documents it: the
/// characters with the Unicode `White_Space` property.
pub open spec fn white_space(c: char) -> bool {
    ||| '\t' <= c && c <= '\r'
    ||| c == ' ' || c == '\u{85}' || c == '\u{A0}' || c == '\u{1680}'
    ||| '\u{2000}' <= c && c <= '\u{200A}'
    ||| c == '\u{2028}' || c == '\u{2029}' || c == '\u{202F}' || c == '\u{205F}' || c == '\u{3000}'
}

/// `s` without its leading whitespace.
pub open spec fn without_leading_space(s: Seq<char>) -> Seq<char>
    decreases s.len(),
{
    if s.len() > 0 && white_space(s[0]) {
        without_leading_space(s.drop_first())
    } else {
        s
    }
}

/// `s` without its trailing whitespace.
pub open spec fn without_trailing_space(s: Seq<char>) -> Seq<char>
    decreases s.len(),
{
    if s.len() > 0 && white_space(s.last()) {
        without_trailing_space(s.drop_last())
    } else {
        s
    }
}

/// What `str::trim` returns for a string: leading and trailing whitespace
/// removed.
pub open spec fn trimmed(s: Seq<char>) -> Seq<char> {
    without_trailing_space(without_leading_space(s))
}

/// `str::chars` collected into a vector: the characters of `s`, in order.
#[verifier::external_body]
pub fn chars_of(s: &str) -> (r: Vec<char>)
    ensures
        r@ == s@,
{
    s.chars().collect()
}

/// `String::from_iter` over characters: the string made of `v`, in order.
#[verifier::external_body]
pub fn string_of(v: &[char]) -> (r: String)
    ensures
        r@ == v@,
{
    v.iter().collect()
}

/// `str::to_lowercase`; the contract names its result `lowercase`.
#[verifier::external_body]
pub fn to_lowercase(s: &str) -> (r: String)
    ensures
        r@ == lowercase(s@),
{
    s.to_lowercase()
}

/// Whether `c` is whitespace (see `white_space`).
pub fn is_white_space(c: char) -> (r: bool)
    ensures
        r == white_space(c),
{
    ('\t' <= c && c <= '\r') || c == ' ' || c == '\u{85}' || c == '\u{A0}' || c == '\u{1680}'
        || ('\u{2000}' <= c && c <= '\u{200A}') || c == '\u{2028}' || c == '\u{2029}' || c == '\u{202F}'
        || c == '\u{205F}' || c == '\u{3000}'
}

/// The string without leading and trailing whitespace, as `str::trim`
/// gives it (see `trimmed`).
pub fn trim(s: &str) -> (r: String)
    ensures
        r@ == trimmed(s@),
{
    let c = chars_of(s);
    let n = c.len();
    let mut i: usize = 0;
    assert(c@.subrange(0, n as int) =~= c@);
    while i < n && is_white_space(c[i])
        invariant
            i <= n,
            n == c@.len(),
            without_leading_space(c@) == without_leading_space(c@.subrange(i as int, n as int)),
        decreases n - i,
    {
        assert(c@.subrange(i as int, n as int).drop_first() =~= c@.subrange(i + 1, n as int));
        i = i + 1;
    }
    assert(without_leading_space(c@) == c@.subrange(i as int, n as int));
    let mut j: usize = n;
    while j > i && is_white_space(c[j - 1])
        invariant
            i <= j <= n,
            n == c@.len(),
            without_leading_space(c@) == c@.subrange(i as int, n as int),
            without_trailing_space(c@.subrange(i as int, n as int)) == without_trailing_space(c@.subrange(i as int, j as int)),
        decreases j,
    {
        assert(c@.subrange(i as int, j as int).drop_last() =~= c@.subrange(i as int, j - 1));
        j = j - 1;
    }
    assert(without_trailing_space(c@.subrange(i as int, j as int)) == c@.subrange(i as int, j as int));
    let mut out: Vec<char> = Vec::new();
    let mut k: usize = i;
    while k < j
        invariant
            i <= k <= j <= n,
            n == c@.len(),
            out@ == c@.subrange(i as int, k as int),
        decreases j - k,
    {
        out.push(c[k]);
        k = k + 1;
        assert(out@ =~= c@.subrange(i as int, k as int));
    }
    assert(c@ == s@);
    string_of(&out)
}

/// Whether the characters `a` spell exactly the string `b`.
pub fn same_text(a: &[char], b: &str) -> (r: bool)
    ensures
        r == (a@ == b@),
{
    let bc = chars_of(b);
    if a.len() != bc.len() {
        return false;
    }
    let mut i: usize = 0;
    while i < a.len()
        invariant
            i <= a.len(),
            a.len() == bc.len(),
            bc@ == b@,
            forall|k: int| 0 <= k < i ==> a@[k] == bc@[k],
        decreases a.len() - i,
    {
        if a[i] != bc[i] {
            assert(a@[i as int] != b@[i as int]);
            return false;
        }
        i = i + 1;
    }
    assert(a@ =~= bc@);
    true
}

/// Appends the characters of `s` to `out`.
pub fn push_str(out: &mut Vec<char>, s: &str)
    ensures
        final(out)@ == old(out)@ + s@,
{
    let c = chars_of(s);
    push_chars(out, &c);
}

/// Appends the characters `c` to `out`.
pub fn push_chars(out: &mut Vec<char>, c: &[char])
    ensures
        final(out)@ == old(out)@ + c@,
{
    let ghost start = out@;
    let mut i: usize = 0;
    while i < c.len()
        invariant
            i <= c.len(),
            out@ == start + c@.take(i as int),
        decreases c.len() - i,
    {
        out.push(c[i]);
        i = i + 1;
        assert(c@.take(i as int) =~= c@.take(i - 1).push(c@[i - 1]));
    }
    assert(c@.take(i as int) =~= c@);
}

/// Whether two strings hold the same characters.
pub fn str_eq(a: &str, b: &str) -> (r: bool)
    ensures
        r == (a@ == b@),
{
    let c = chars_of(a);
    same_text(&c, b)
}

/// Whether `b` occurs in `a` starting at index `k`.
pub open spec fn occurs_at(a: Seq<char>, b: Seq<char>, k: int) -> bool {
    0 <= k && k + b.len() <= a.len() && a.subrange(k, k + b.len()) == b
}

/// Whether `b` occurs somewhere in `a`.
pub open spec fn contains_text(a: Seq<char>, b: Seq<char>) -> bool {
    exists|k: int| occurs_at(a, b, k)
}

/// Whether `a` begins with `b`.
pub open spec fn starts_with_text(a: Seq<char>, b: Seq<char>) -> bool {
    occurs_at(a, b, 0)
}

/// Whether `a` ends with `b`.
pub open spec fn ends_with_text(a: Seq<char>, b: Seq<char>) -> bool {
    occurs_at(a, b, a.len() - b.len())
}

/// Whether `b` occurs in `a` at index `k`.
pub fn occurs_at_exec(a: &[char], b: &[char], k: usize) -> (r: bool)
    ensures
        r == occurs_at(a@, b@, k as int),
{
    if k > a.len() || b.len() > a.len() - k {
        return false;
    }
    let mut j: usize = 0;
    while j < b.len()
        invariant
            j <= b.len(),
            k + b.len() <= a.len(),
            forall|m: int| 0 <= m < j ==> a@[k + m] == b@[m],
        decreases b.len() - j,
    {
        if a[k + j] != b[j] {
            assert(a@.subrange(k as int, k + b.len())[j as int] != b@[j as int]);
            return false;
        }
        j = j + 1;
    }
    assert(a@.subrange(k as int, k + b.len()) =~= b@);
    true
}

/// Whether `b` occurs somewhere in `a`.
pub fn chars_contain(a: &[char], b: &[char]) -> (r: bool)
    ensures
        r == contains_text(a@, b@),
{
    if b.len() > a.len() {
        assert forall|k: int| !occurs_at(a@, b@, k) by {}
        return false;
    }
    if b.len() == 0 {
        assert(occurs_at(a@, b@, 0)) by {
            assert(a@.subrange(0, 0) =~= b@);
        }
        return true;
    }
    let mut k: usize = 0;
    while k <= a.len() - b.len()
        invariant
            0 < b.len() <= a.len(),
            k <= a.len() - b.len() + 1,
            forall|m: int| 0 <= m < k ==> !occurs_at(a@, b@, m),
        decreases a.len() - b.len() + 1 - k,
    {
        if occurs_at_exec(a, b, k) {
            return true;
        }
        k = k + 1;
    }
    assert forall|m: int| !occurs_at(a@, b@, m) by {
        if 0 <= m && m + b@.len() <= a@.len() {
            assert(m < k);
        }
    }
    false
}

/// Whether `a` begins with `b`.
pub fn chars_start_with(a: &[char], b: &[char]) -> (r: bool)
    ensures
        r == starts_with_text(a@, b@),
{
    occurs_at_exec(a, b, 0)
}

/// Whether `a` ends with `b`.
pub fn chars_end_with(a: &[char], b: &[char]) -> (r: bool)
    ensures
        r == ends_with_text(a@, b@),
{
    if b.len() > a.len() {
        return false;
    }
    occurs_at_exec(a, b, a.len() - b.len())
}

/// The decimal digit character for `d` (below 10).
pub open spec fn digit(d: int) -> char {
    if d == 0 { '0' } else if d == 1 { '1' } else if d == 2 { '2' } else if d == 3 { '3' }
    else if d == 4 { '4' } else if d == 5 { '5' } else if d == 6 { '6' } else if d == 7 { '7' }
    else if d == 8 { '8' } else { '9' }
}

/// The decimal text of `n`, without leading zeros.
pub open spec fn decimal(n: nat) -> Seq<char>
    decreases n,
{
    if n < 10 {
        seq![digit(n as int)]
    } else {
        decimal(n / 10).push(digit((n % 10) as int))
    }
}

/// Appends the decimal text of `n` to `out`.
fn push_decimal(n: usize, out: &mut Vec<char>)
    ensures
        final(out)@ == old(out)@ + decimal(n as nat),
    decreases n,
{
    if n >= 10 {
        push_decimal(n / 10, out);
    }
    let d = n % 10;
    let c = if d == 0 { '0' } else if d == 1 { '1' } else if d == 2 { '2' } else if d == 3 { '3' }
        else if d == 4 { '4' } else if d == 5 { '5' } else if d == 6 { '6' } else if d == 7 { '7' }
        else if d == 8 { '8' } else { '9' };
    let ghost before = out@;
    out.push(c);
    proof {
        if n < 10 {
            assert(n % 10 == n);
        }
    }
}

/// The decimal text of `n`.
pub fn decimal_text(n: usize) -> (r: String)
    ensures
        r@ == decimal(n as nat),
{
    let mut out: Vec<char> = Vec::new();
    push_decimal(n, &mut out);
    assert(out@ =~= decimal(n as nat));
    string_of(&out)
}

} // verus!
