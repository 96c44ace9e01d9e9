//! Character-level helpers shared by the rendering and parsing code.

use vstd::prelude::*;

verus! {

/// The ASCII digit for a value below ten.
pub open spec fn digit_char(d: int) -> char {
    ((d + 48) as u8) as char
}

/// Decimal representation of a natural number, most significant digit first.
pub open spec fn decimal(n: nat) -> Seq<char>
    decreases n,
{
    if n < 10 {
        seq![digit_char(n as int)]
    } else {
        decimal(n / 10).push(digit_char((n % 10) as int))
    }
}

/// Appends the characters of `s` to `out`.
pub fn push_str(out: &mut Vec<char>, s: &str)
    ensures
        final(out)@ == old(out)@ + s@,
{
    broadcast use vstd::string::axiom_spec_iter;

    let ghost start = out@;
    for c in it: s.chars()
        invariant
            out@ == start + it.seq().take(it.index() as int),
    {
        out.push(c);
        assert(out@ =~= start + it.seq().take(it.index() + 1));
    }
    assert(out@ =~= start + s@);
}

/// Appends the decimal digits of `n` to `out`.
pub fn push_decimal(out: &mut Vec<char>, n: u64)
    ensures
        final(out)@ == old(out)@ + decimal(n as nat),
    decreases n,
{
    if n >= 10 {
        push_decimal(out, n / 10);
    }
    let d: u8 = (n % 10) as u8;
    out.push((d + 48) as char);
}

/// Collects characters into a `String`.
#[verifier::external_body]
pub(crate) fn string_from_chars(chars: &Vec<char>) -> (s: String)
    ensures
        s@ == chars@,
{
    chars.iter().collect()
}

/// The characters of a string.
pub fn chars_of(s: &str) -> (v: Vec<char>)
    ensures
        v@ == s@,
{
    broadcast use vstd::string::axiom_spec_iter;

    let mut v: Vec<char> = Vec::new();
    for c in it: s.chars()
        invariant
            v@ == it.seq().take(it.index() as int),
    {
        v.push(c);
        assert(v@ =~= it.seq().take(it.index() + 1));
    }
    assert(v@ =~= s@);
    v
}

/// Characters with the Unicode `White_Space` property, which `char::is_whitespace`
/// and `str::trim` use.
pub open spec fn is_unicode_whitespace(c: char) -> bool {
    let u = c as u32;
    (0x09 <= u <= 0x0D) || u == 0x20 || u == 0x85 || u == 0xA0 || u == 0x1680 || (0x2000 <= u
        <= 0x200A) || u == 0x2028 || u == 0x2029 || u == 0x202F || u == 0x205F || u == 0x3000
}

/// Whether `c` is Unicode whitespace.
pub fn is_unicode_whitespace_exec(c: char) -> (b: bool)
    ensures
        b == is_unicode_whitespace(c),
{
    let u = c as u32;
    (0x09 <= u && u <= 0x0D) || u == 0x20 || u == 0x85 || u == 0xA0 || u == 0x1680 || (0x2000 <= u
        && u <= 0x200A) || u == 0x2028 || u == 0x2029 || u == 0x202F || u == 0x205F || u == 0x3000
}

/// `s` without leading whitespace.
pub open spec fn trim_start_ws(s: Seq<char>) -> Seq<char>
    decreases s.len(),
{
    if s.len() > 0 && is_unicode_whitespace(s[0]) {
        trim_start_ws(s.drop_first())
    } else {
        s
    }
}

/// `s` without trailing whitespace.
pub open spec fn trim_end_ws(s: Seq<char>) -> Seq<char>
    decreases s.len(),
{
    if s.len() > 0 && is_unicode_whitespace(s.last()) {
        trim_end_ws(s.drop_last())
    } else {
        s
    }
}

/// `s` without leading and trailing whitespace, as `str::trim` gives it.
pub open spec fn trim_ws(s: Seq<char>) -> Seq<char> {
    trim_end_ws(trim_start_ws(s))
}

proof fn lemma_trim_start_skip(s: Seq<char>, i: int)
    requires
        0 <= i <= s.len(),
        forall|k: int| 0 <= k < i ==> is_unicode_whitespace(#[trigger] s[k]),
    ensures
        trim_start_ws(s) == trim_start_ws(s.subrange(i, s.len() as int)),
    decreases i,
{
    if i > 0 {
        assert(s.drop_first().subrange(i - 1, s.drop_first().len() as int) =~= s.subrange(
            i,
            s.len() as int,
        ));
        lemma_trim_start_skip(s.drop_first(), i - 1);
    } else {
        assert(s.subrange(0, s.len() as int) =~= s);
    }
}

proof fn lemma_trim_end_skip(s: Seq<char>, j: int)
    requires
        0 <= j <= s.len(),
        forall|k: int| j <= k < s.len() ==> is_unicode_whitespace(#[trigger] s[k]),
    ensures
        trim_end_ws(s) == trim_end_ws(s.subrange(0, j)),
    decreases s.len() - j,
{
    if j < s.len() {
        assert(s.drop_last().subrange(0, j) =~= s.subrange(0, j));
        lemma_trim_end_skip(s.drop_last(), j);
    } else {
        assert(s.subrange(0, j) =~= s);
    }
}

/// The characters of `s` without leading and trailing whitespace.
pub fn trim_chars(s: &Vec<char>) -> (t: Vec<char>)
    ensures
        t@ == trim_ws(s@),
{
    let n = s.len();
    let mut i: usize = 0;
    while i < n && is_unicode_whitespace_exec(s[i])
        invariant
            i <= n == s@.len(),
            forall|k: int| 0 <= k < i ==> is_unicode_whitespace(#[trigger] s@[k]),
        decreases n - i,
    {
        i = i + 1;
    }
    proof {
        lemma_trim_start_skip(s@, i as int);
    }
    let ghost mid = s@.subrange(i as int, n as int);
    assert(trim_start_ws(mid) == mid);
    let mut j: usize = n;
    while j > i && is_unicode_whitespace_exec(s[j - 1])
        invariant
            i <= j <= n == s@.len(),
            mid == s@.subrange(i as int, n as int),
            forall|k: int| j <= k < n ==> is_unicode_whitespace(#[trigger] s@[k]),
        decreases j,
    {
        j = j - 1;
    }
    proof {
        assert forall|k: int| j - i <= k < mid.len() implies is_unicode_whitespace(
            #[trigger] mid[k],
        ) by {
            assert(mid[k] == s@[k + i]);
        }
        lemma_trim_end_skip(mid, j - i);
        assert(mid.subrange(0, j - i) =~= s@.subrange(i as int, j as int));
    }
    let mut t: Vec<char> = Vec::new();
    let mut k = i;
    while k < j
        invariant
            i <= k <= j <= n == s@.len(),
            t@ == s@.subrange(i as int, k as int),
        decreases j - k,
    {
        t.push(s[k]);
        assert(t@ =~= s@.subrange(i as int, k + 1));
        k = k + 1;
    }
    t
}

/// ASCII lower-case mapping of one character; other characters are kept.
pub open spec fn ascii_lower(c: char) -> char {
    if 'A' <= c <= 'Z' {
        (((c as u32) + 32) as u8) as char
    } else {
        c
    }
}

/// ASCII lower-case mapping of every character of `s`.
pub open spec fn ascii_lower_seq(s: Seq<char>) -> Seq<char> {
    Seq::new(s.len(), |i: int| ascii_lower(s[i]))
}

/// The characters of `s` in ASCII lower case, as `str::to_ascii_lowercase` gives them.
pub fn ascii_lower_chars(s: &Vec<char>) -> (t: Vec<char>)
    ensures
        t@ == ascii_lower_seq(s@),
{
    let mut t: Vec<char> = Vec::new();
    let mut i: usize = 0;
    while i < s.len()
        invariant
            i <= s@.len(),
            t@.len() == i,
            forall|k: int| 0 <= k < i ==> #[trigger] t@[k] == ascii_lower(s@[k]),
        decreases s@.len() - i,
    {
        let c = s[i];
        let l = if 'A' <= c && c <= 'Z' {
            (((c as u32) + 32) as u8) as char
        } else {
            c
        };
        t.push(l);
        i = i + 1;
    }
    assert(t@ =~= ascii_lower_seq(s@));
    t
}

/// Whether `s` ends with `suffix`.
pub open spec fn seq_ends_with(s: Seq<char>, suffix: Seq<char>) -> bool {
    suffix.len() <= s.len() && s.subrange(s.len() - suffix.len(), s.len() as int) == suffix
}

/// Whether `s` starts with `prefix`.
pub open spec fn seq_starts_with(s: Seq<char>, prefix: Seq<char>) -> bool {
    prefix.len() <= s.len() && s.subrange(0, prefix.len() as int) == prefix
}

/// Whether `needle` occurs in `s`.
pub open spec fn seq_contains_seq(s: Seq<char>, needle: Seq<char>) -> bool {
    exists|i: int| 0 <= i && i + needle.len() <= s.len() && #[trigger] s.subrange(i, i + needle.len()) == needle
}

/// Whether `s[start..]` begins with `p`.
fn matches_at(s: &Vec<char>, start: usize, p: &Vec<char>) -> (b: bool)
    requires
        start <= s@.len(),
    ensures
        b == (start + p@.len() <= s@.len() && s@.subrange(start as int, start + p@.len()) == p@),
{
    let n = s.len();
    if p.len() > n - start {
        return false;
    }
    let mut k: usize = 0;
    while k < p.len()
        invariant
            n == s@.len(),
            start + p@.len() <= n,
            k <= p@.len(),
            forall|m: int| 0 <= m < k ==> s@[start + m] == p@[m],
        decreases p@.len() - k,
    {
        if s[start + k] != p[k] {
            assert(s@.subrange(start as int, start + p@.len())[k as int] != p@[k as int]);
            return false;
        }
        k = k + 1;
    }
    assert(s@.subrange(start as int, start + p@.len()) =~= p@);
    true
}

/// Whether `s` ends with the characters of `suffix`.
pub fn ends_with_str(s: &Vec<char>, suffix: &str) -> (b: bool)
    ensures
        b == seq_ends_with(s@, suffix@),
{
    let p = chars_of(suffix);
    if p.len() > s.len() {
        return false;
    }
    matches_at(s, s.len() - p.len(), &p)
}

/// Whether `s` starts with the characters of `prefix`.
pub fn starts_with_str(s: &Vec<char>, prefix: &str) -> (b: bool)
    ensures
        b == seq_starts_with(s@, prefix@),
{
    let p = chars_of(prefix);
    matches_at(s, 0, &p)
}

/// Whether `s` holds exactly the characters of `t`.
pub fn equals_str(s: &Vec<char>, t: &str) -> (b: bool)
    ensures
        b == (s@ == t@),
{
    let p = chars_of(t);
    if p.len() != s.len() {
        return false;
    }
    let r = matches_at(s, 0, &p);
    assert(s@.subrange(0, s@.len() as int) =~= s@);
    r
}

/// Whether the characters of `needle` occur contiguously in `s`.
pub fn contains_str(s: &Vec<char>, needle: &str) -> (b: bool)
    ensures
        b == seq_contains_seq(s@, needle@),
{
    let p = chars_of(needle);
    if p.len() > s.len() {
        return false;
    }
    if p.len() == 0 {
        assert(s@.subrange(0, 0int + needle@.len()) =~= needle@);
        return true;
    }
    let n = s.len();
    let last = n - p.len();
    let mut i: usize = 0;
    while i < last + 1
        invariant
            last + p@.len() == s@.len(),
            last < n,
            i <= last + 1,
            p@ == needle@,
            forall|k: int| 0 <= k < i ==> #[trigger] s@.subrange(k, k + p@.len()) != p@,
        decreases last + 1 - i,
    {
        if matches_at(s, i, &p) {
            return true;
        }
        i = i + 1;
    }
    assert(!seq_contains_seq(s@, needle@));
    false
}

/// Appends the characters of `t` to `out`.
pub fn push_chars(out: &mut Vec<char>, t: &Vec<char>)
    ensures
        final(out)@ == old(out)@ + t@,
{
    let ghost start = out@;
    let mut k: usize = 0;
    while k < t.len()
        invariant
            k <= t@.len(),
            out@ == start + t@.take(k as int),
        decreases t@.len() - k,
    {
        out.push(t[k]);
        assert(out@ =~= start + t@.take(k + 1));
        k = k + 1;
    }
    assert(t@.take(t@.len() as int) =~= t@);
}

/// A result of strings taken by the strings' views.
pub open spec fn result_view<T: View>(r: Result<T, String>) -> Result<T::V, Seq<char>> {
    match r {
        Ok(v) => Ok(v@),
        Err(e) => Err(e@),
    }
}

/// `s` without any leading occurrences of `c`.
pub open spec fn trim_start_char(s: Seq<char>, c: char) -> Seq<char>
    decreases s.len(),
{
    if s.len() > 0 && s[0] == c {
        trim_start_char(s.drop_first(), c)
    } else {
        s
    }
}

/// `s` without any trailing occurrences of `c`.
pub open spec fn trim_end_char(s: Seq<char>, c: char) -> Seq<char>
    decreases s.len(),
{
    if s.len() > 0 && s.last() == c {
        trim_end_char(s.drop_last(), c)
    } else {
        s
    }
}

/// `s` without its leading run of `c`.
pub fn trim_start_char_exec(s: &Vec<char>, c: char) -> (t: Vec<char>)
    ensures
        t@ == trim_start_char(s@, c),
{
    let n = s.len();
    assert(s@.subrange(0, n as int) =~= s@);
    let mut i: usize = 0;
    while i < n && s[i] == c
        invariant
            i <= n == s@.len(),
            trim_start_char(s@, c) == trim_start_char(s@.subrange(i as int, n as int), c),
        decreases n - i,
    {
        assert(s@.subrange(i as int, n as int).drop_first() =~= s@.subrange(i + 1, n as int));
        i = i + 1;
    }
    let mut t: Vec<char> = Vec::new();
    let mut k = i;
    while k < n
        invariant
            i <= k <= n == s@.len(),
            t@ == s@.subrange(i as int, k as int),
        decreases n - k,
    {
        t.push(s[k]);
        assert(t@ =~= s@.subrange(i as int, k + 1));
        k = k + 1;
    }
    t
}

/// `s` without its trailing run of `c`.
pub fn trim_end_char_exec(s: &Vec<char>, c: char) -> (t: Vec<char>)
    ensures
        t@ == trim_end_char(s@, c),
{
    let n = s.len();
    assert(s@.subrange(0, n as int) =~= s@);
    let mut j: usize = n;
    while j > 0 && s[j - 1] == c
        invariant
            j <= n == s@.len(),
            trim_end_char(s@, c) == trim_end_char(s@.subrange(0, j as int), c),
        decreases j,
    {
        assert(s@.subrange(0, j as int).drop_last() =~= s@.subrange(0, j - 1));
        j = j - 1;
    }
    let mut t: Vec<char> = Vec::new();
    let mut k: usize = 0;
    while k < j
        invariant
            k <= j <= n == s@.len(),
            t@ == s@.subrange(0, k as int),
        decreases j - k,
    {
        t.push(s[k]);
        assert(t@ =~= s@.subrange(0, k + 1));
        k = k + 1;
    }
    t
}

/// Index of the first occurrence of `c` in `s`, or the length of `s`.
pub open spec fn first_index_of(s: Seq<char>, c: char) -> int
    decreases s.len(),
{
    if s.len() == 0 {
        0
    } else if s[0] == c {
        0
    } else {
        1 + first_index_of(s.drop_first(), c)
    }
}

/// `first_index_of` lies between zero and the length.
pub proof fn lemma_first_index_bounds(s: Seq<char>, c: char)
    ensures
        0 <= first_index_of(s, c) <= s.len(),
    decreases s.len(),
{
    if s.len() > 0 && s[0] != c {
        lemma_first_index_bounds(s.drop_first(), c);
    }
}

/// Index of the first `c` at or after `start` in `s`, or the length of `s`.
pub fn find_char_from(s: &Vec<char>, start: usize, c: char) -> (i: usize)
    requires
        start <= s@.len(),
    ensures
        i as int == start + first_index_of(s@.subrange(start as int, s@.len() as int), c),
        start <= i <= s@.len(),
{
    let n = s.len();
    let mut i = start;
    while i < n && s[i] != c
        invariant
            start <= i <= n == s@.len(),
            first_index_of(s@.subrange(start as int, n as int), c) == (i - start)
                + first_index_of(s@.subrange(i as int, n as int), c),
        decreases n - i,
    {
        assert(s@.subrange(i as int, n as int).drop_first() =~= s@.subrange(i + 1, n as int));
        i = i + 1;
    }
    i
}

/// The characters `s[a..b]`.
pub fn slice_chars(s: &Vec<char>, a: usize, b: usize) -> (t: Vec<char>)
    requires
        a <= b <= s@.len(),
    ensures
        t@ == s@.subrange(a as int, b as int),
{
    let mut t: Vec<char> = Vec::new();
    let mut k = a;
    while k < b
        invariant
            a <= k <= b <= s@.len(),
            t@ == s@.subrange(a as int, k as int),
        decreases b - k,
    {
        t.push(s[k]);
        assert(t@ =~= s@.subrange(a as int, k + 1));
        k = k + 1;
    }
    t
}

} // verus!
