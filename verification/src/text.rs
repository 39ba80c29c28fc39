//! Character-sequence utilities: conversion between strings and character vectors,
//! substring search, Unicode white space, trimming and word extraction.

use vstd::prelude::*;

verus! {

/// The characters of a string slice, in order.
pub fn chars_of(s: &str) -> (v: Vec<char>)
    ensures
        v@ == s@,
{
    let mut v: Vec<char> = Vec::new();
    for c in it: s.chars()
        invariant
            v@ == it.seq().take(it.index() as int),
            it.seq() == s@,
    {
        v.push(c);
    }
    v
}

/// `String` built from a character sequence (std's `FromIterator<char>` for `String`).
#[verifier::external_body]
pub(crate) fn string_of(v: &[char]) -> (s: String)
    ensures
        s@ == v@,
{
    v.iter().collect()
}

/// Appends all of `src` to `dst`.
pub fn extend_chars(dst: &mut Vec<char>, src: &[char])
    ensures
        final(dst)@ == old(dst)@ + src@,
{
    let mut i: usize = 0;
    while i < src.len()
        invariant
            i <= src@.len(),
            dst@ == old(dst)@ + src@.take(i as int),
        decreases src@.len() - i,
    {
        assert(src@.take(i + 1) == src@.take(i as int).push(src@[i as int]));
        dst.push(src[i]);
        i = i + 1;
    }
    assert(src@.take(src@.len() as int) == src@);
}

/// Appends the characters of a string slice to `dst`.
pub fn extend_str(dst: &mut Vec<char>, src: &str)
    ensures
        final(dst)@ == old(dst)@ + src@,
{
    let v = chars_of(src);
    extend_chars(dst, v.as_slice());
}

/// The sub-vector `v[from..to]`.
pub fn slice_chars(v: &[char], from: usize, to: usize) -> (r: Vec<char>)
    requires
        from <= to <= v@.len(),
    ensures
        r@ == v@.subrange(from as int, to as int),
{
    let mut r: Vec<char> = Vec::new();
    let mut i = from;
    while i < to
        invariant
            from <= i <= to <= v@.len(),
            r@ == v@.subrange(from as int, i as int),
        decreases to - i,
    {
        r.push(v[i]);
        i = i + 1;
    }
    r
}

/// `pat` occurs in `s` starting at position `i`.
pub open spec fn occurs_at(s: Seq<char>, pat: Seq<char>, i: int) -> bool {
    0 <= i && i + pat.len() <= s.len() && s.subrange(i, i + pat.len()) == pat
}

/// The first position at or after `from` where `pat` occurs in `s`.
pub open spec fn find_from(s: Seq<char>, pat: Seq<char>, from: int) -> Option<int>
    decreases s.len() + 1 - from,
{
    if from < 0 || from + pat.len() > s.len() {
        None
    } else if occurs_at(s, pat, from) {
        Some(from)
    } else {
        find_from(s, pat, from + 1)
    }
}

/// The first position where `pat` occurs in `s` (what `str::find` answers).
pub open spec fn find(s: Seq<char>, pat: Seq<char>) -> Option<int> {
    find_from(s, pat, 0)
}

/// `s` contains `pat` (what `str::contains` answers).
pub open spec fn contains(s: Seq<char>, pat: Seq<char>) -> bool {
    find(s, pat) is Some
}

/// `str::split_once`: the parts before and after the first occurrence of `pat`.
pub open spec fn split_once(s: Seq<char>, pat: Seq<char>) -> Option<(Seq<char>, Seq<char>)> {
    match find(s, pat) {
        Some(i) => Some((s.take(i), s.skip(i + pat.len()))),
        None => None,
    }
}

/// `s` starts with `pat`.
pub open spec fn starts_with(s: Seq<char>, pat: Seq<char>) -> bool {
    pat.len() <= s.len() && s.take(pat.len() as int) == pat
}

proof fn lemma_find_from_props(s: Seq<char>, pat: Seq<char>, from: int)
    requires
        0 <= from,
    ensures
        match find_from(s, pat, from) {
            Some(i) => from <= i && occurs_at(s, pat, i) && forall|j: int|
                from <= j < i ==> !occurs_at(s, pat, j),
            None => forall|j: int| from <= j ==> !occurs_at(s, pat, j),
        },
    decreases s.len() + 1 - from,
{
    if from + pat.len() > s.len() {
    } else if occurs_at(s, pat, from) {
    } else {
        lemma_find_from_props(s, pat, from + 1);
    }
}

/// `find` gives the first occurrence, and none when there is none.
pub proof fn lemma_find_props(s: Seq<char>, pat: Seq<char>)
    ensures
        match find(s, pat) {
            Some(i) => occurs_at(s, pat, i) && forall|j: int| 0 <= j < i ==> !occurs_at(s, pat, j),
            None => forall|j: int| 0 <= j ==> !occurs_at(s, pat, j),
        },
{
    lemma_find_from_props(s, pat, 0);
}

/// What a suffix of `s` contains, `s` contains.
pub proof fn lemma_contains_suffix(s: Seq<char>, k: int, pat: Seq<char>)
    requires
        0 <= k <= s.len(),
        contains(s.skip(k), pat),
    ensures
        contains(s, pat),
{
    lemma_find_props(s.skip(k), pat);
    let j = find(s.skip(k), pat)->0;
    assert(s.subrange(j + k, j + k + pat.len()) =~= s.skip(k).subrange(j, j + pat.len()));
    assert(occurs_at(s, pat, j + k));
    lemma_find_props(s, pat);
}

/// Whether `pat` occurs in `s` at position `i`.
fn matches_at(s: &[char], pat: &[char], i: usize) -> (r: bool)
    requires
        i + pat@.len() <= s@.len(),
    ensures
        r == occurs_at(s@, pat@, i as int),
{
    let m = pat.len();
    let n = s.len();
    let mut j: usize = 0;
    while j < m && s[i + j] == pat[j]
        invariant
            n == s@.len(),
            i + m <= n,
            m == pat@.len(),
            j <= m,
            forall|k: int| 0 <= k < j ==> s@[i + k] == pat@[k],
        decreases m - j,
    {
        j = j + 1;
    }
    proof {
        if j == m {
            assert(s@.subrange(i as int, i + m) =~= pat@);
        } else {
            assert(s@.subrange(i as int, i + m)[j as int] != pat@[j as int]);
        }
    }
    j == m
}

/// The first occurrence of `pat` in `s`, if any.
pub fn find_chars(s: &[char], pat: &[char]) -> (r: Option<usize>)
    ensures
        match r {
            Some(i) => find(s@, pat@) == Some(i as int),
            None => find(s@, pat@) is None,
        },
{
    let n = s.len();
    let m = pat.len();
    if m > n {
        return None;
    }
    if m == 0 {
        assert(s@.subrange(0, 0) =~= pat@);
        return Some(0);
    }
    let mut i: usize = 0;
    while i <= n - m
        invariant
            n == s@.len(),
            m == pat@.len(),
            1 <= m <= n,
            i <= n,
            find(s@, pat@) == find_from(s@, pat@, i as int),
        decreases n - i,
    {
        if matches_at(s, pat, i) {
            return Some(i);
        }
        i = i + 1;
    }
    None
}

/// The Unicode `White_Space` property (what `char::is_whitespace` answers).
pub open spec fn is_white_space_spec(c: char) -> bool {
    let u = c as u32;
    ||| 0x09 <= u <= 0x0D
    ||| u == 0x20
    ||| u == 0x85
    ||| u == 0xA0
    ||| u == 0x1680
    ||| 0x2000 <= u <= 0x200A
    ||| u == 0x2028
    ||| u == 0x2029
    ||| u == 0x202F
    ||| u == 0x205F
    ||| u == 0x3000
}

/// Whether `c` is white space in the sense of Unicode's `White_Space` property.
pub fn is_white_space(c: char) -> (r: bool)
    ensures
        r == is_white_space_spec(c),
{
    let u = c as u32;
    (0x09 <= u && u <= 0x0D) || u == 0x20 || u == 0x85 || u == 0xA0 || u == 0x1680
        || (0x2000 <= u && u <= 0x200A) || u == 0x2028 || u == 0x2029 || u == 0x202F
        || u == 0x205F || u == 0x3000
}

/// Number of leading white-space characters of `s`.
pub open spec fn leading_ws(s: Seq<char>) -> nat
    decreases s.len(),
{
    if s.len() > 0 && is_white_space_spec(s[0]) {
        1 + leading_ws(s.drop_first())
    } else {
        0
    }
}

/// Number of trailing white-space characters of `s`.
pub open spec fn trailing_ws(s: Seq<char>) -> nat
    decreases s.len(),
{
    if s.len() > 0 && is_white_space_spec(s.last()) {
        1 + trailing_ws(s.drop_last())
    } else {
        0
    }
}

/// `str::trim_start`.
pub open spec fn trim_start(s: Seq<char>) -> Seq<char> {
    s.skip(leading_ws(s) as int)
}

/// `str::trim`: white space removed at both ends.
pub open spec fn trim(s: Seq<char>) -> Seq<char> {
    let t = trim_start(s);
    t.take(t.len() - trailing_ws(t))
}

/// Length of the leading run of non-white-space characters.
pub open spec fn word_len(s: Seq<char>) -> nat
    decreases s.len(),
{
    if s.len() > 0 && !is_white_space_spec(s[0]) {
        1 + word_len(s.drop_first())
    } else {
        0
    }
}

/// `s.split_whitespace().next()`: the first white-space separated word.
pub open spec fn first_word(s: Seq<char>) -> Option<Seq<char>> {
    let t = trim_start(s);
    if t.len() == 0 {
        None
    } else {
        Some(t.take(word_len(t) as int))
    }
}

proof fn lemma_leading_ws_bound(s: Seq<char>)
    ensures
        leading_ws(s) <= s.len(),
        forall|k: int| 0 <= k < leading_ws(s) ==> is_white_space_spec(#[trigger] s[k]),
        leading_ws(s) < s.len() ==> !is_white_space_spec(s[leading_ws(s) as int]),
    decreases s.len(),
{
    if s.len() > 0 && is_white_space_spec(s[0]) {
        lemma_leading_ws_bound(s.drop_first());
        assert forall|k: int| 0 <= k < leading_ws(s) implies is_white_space_spec(#[trigger] s[k]) by {
            if k > 0 {
                assert(s[k] == s.drop_first()[k - 1]);
            }
        }
    }
}

proof fn lemma_leading_ws_step(s: Seq<char>, i: int)
    requires
        0 <= i <= s.len(),
        forall|k: int| 0 <= k < i ==> is_white_space_spec(#[trigger] s[k]),
    ensures
        leading_ws(s) == i + leading_ws(s.skip(i)),
    decreases i,
{
    if i > 0 {
        assert(s.drop_first().skip(i - 1) == s.skip(i));
        assert forall|k: int| 0 <= k < i - 1 implies is_white_space_spec(#[trigger] s.drop_first()[k]) by {
            assert(s.drop_first()[k] == s[k + 1]);
        }
        lemma_leading_ws_step(s.drop_first(), i - 1);
    } else {
        assert(s.skip(0) == s);
    }
}

proof fn lemma_trailing_ws_step(s: Seq<char>, j: int)
    requires
        0 <= j <= s.len(),
        forall|k: int| j <= k < s.len() ==> is_white_space_spec(#[trigger] s[k]),
    ensures
        trailing_ws(s) == (s.len() - j) + trailing_ws(s.take(j)),
    decreases s.len() - j,
{
    if j < s.len() {
        assert(s.drop_last().take(j) == s.take(j));
        assert forall|k: int| j <= k < s.drop_last().len() implies is_white_space_spec(#[trigger] s.drop_last()[k]) by {
            assert(s.drop_last()[k] == s[k]);
        }
        lemma_trailing_ws_step(s.drop_last(), j);
    } else {
        assert(s.take(j) == s);
    }
}

proof fn lemma_word_len_step(s: Seq<char>, i: int)
    requires
        0 <= i <= s.len(),
        forall|k: int| 0 <= k < i ==> !is_white_space_spec(#[trigger] s[k]),
    ensures
        word_len(s) == i + word_len(s.skip(i)),
    decreases i,
{
    if i > 0 {
        assert(s.drop_first().skip(i - 1) == s.skip(i));
        assert forall|k: int| 0 <= k < i - 1 implies !is_white_space_spec(#[trigger] s.drop_first()[k]) by {
            assert(s.drop_first()[k] == s[k + 1]);
        }
        lemma_word_len_step(s.drop_first(), i - 1);
    } else {
        assert(s.skip(0) == s);
    }
}

/// Index of the first non-white-space character at or after the start.
fn skip_ws(s: &[char]) -> (i: usize)
    ensures
        i == leading_ws(s@),
{
    let mut i: usize = 0;
    while i < s.len() && is_white_space(s[i])
        invariant
            i <= s@.len(),
            forall|k: int| 0 <= k < i ==> is_white_space_spec(#[trigger] s@[k]),
        decreases s@.len() - i,
    {
        i = i + 1;
    }
    proof {
        lemma_leading_ws_step(s@, i as int);
        if i < s@.len() {
            assert(s@.skip(i as int)[0] == s@[i as int]);
        }
    }
    i
}

/// `str::trim` on a character sequence.
pub fn trim_chars(s: &[char]) -> (r: Vec<char>)
    ensures
        r@ == trim(s@),
{
    let start = skip_ws(s);
    let mut end = s.len();
    proof {
        lemma_leading_ws_bound(s@);
    }
    while end > start && is_white_space(s[end - 1])
        invariant
            start <= end <= s@.len(),
            start == leading_ws(s@),
            forall|k: int| end <= k < s@.len() ==> is_white_space_spec(#[trigger] s@[k]),
        decreases end,
    {
        end = end - 1;
    }
    proof {
        let t = trim_start(s@);
        let j = end - start;
        assert forall|k: int| j <= k < t.len() implies is_white_space_spec(#[trigger] t[k]) by {
            assert(t[k] == s@[k + start]);
        }
        lemma_trailing_ws_step(t, j);
        if j > 0 {
            assert(t.take(j).last() == s@[end - 1]);
        }
        assert(t.take(j) == s@.subrange(start as int, end as int));
    }
    slice_chars(s, start, end)
}

/// `s.split_whitespace().next()` on a character sequence.
pub fn first_word_chars(s: &[char]) -> (r: Option<Vec<char>>)
    ensures
        match r {
            Some(w) => first_word(s@) == Some(w@),
            None => first_word(s@) is None,
        },
{
    let start = skip_ws(s);
    proof {
        lemma_leading_ws_bound(s@);
    }
    if start == s.len() {
        return None;
    }
    let mut end = start;
    while end < s.len() && !is_white_space(s[end])
        invariant
            start <= end <= s@.len(),
            forall|k: int| start <= k < end ==> !is_white_space_spec(#[trigger] s@[k]),
        decreases s@.len() - end,
    {
        end = end + 1;
    }
    proof {
        let t = trim_start(s@);
        let j = end - start;
        assert forall|k: int| 0 <= k < j implies !is_white_space_spec(#[trigger] t[k]) by {
            assert(t[k] == s@[k + start]);
        }
        lemma_word_len_step(t, j);
        if j < t.len() {
            assert(t.skip(j)[0] == s@[end as int]);
        }
        assert(t.take(j) == s@.subrange(start as int, end as int));
    }
    Some(slice_chars(s, start, end))
}

/// `str::split_once` on character sequences.
pub fn split_once_chars(s: &[char], pat: &[char]) -> (r: Option<(Vec<char>, Vec<char>)>)
    ensures
        match r {
            Some((a, b)) => split_once(s@, pat@) == Some((a@, b@)),
            None => split_once(s@, pat@) is None,
        },
{
    match find_chars(s, pat) {
        Some(i) => {
            proof {
                lemma_find_from_props(s@, pat@, 0);
                assert(occurs_at(s@, pat@, i as int));
            }
            let n = s.len();
            let m = pat.len();
            assert(i + m <= n);
            let a = slice_chars(s, 0, i);
            let b = slice_chars(s, i + m, n);
            Some((a, b))
        },
        None => None,
    }
}

/// `str::contains` on character sequences.
pub fn contains_chars(s: &[char], pat: &[char]) -> (r: bool)
    ensures
        r == contains(s@, pat@),
{
    find_chars(s, pat).is_some()
}

/// `s` begins with `pat`.
pub fn starts_with_chars(s: &[char], pat: &[char]) -> (r: bool)
    ensures
        r == starts_with(s@, pat@),
{
    if pat.len() > s.len() {
        return false;
    }
    let mut j: usize = 0;
    while j < pat.len()
        invariant
            pat@.len() <= s@.len(),
            j <= pat@.len(),
            s@.take(j as int) == pat@.take(j as int),
        decreases pat@.len() - j,
    {
        if s[j] != pat[j] {
            assert(s@.take(pat@.len() as int)[j as int] != pat@[j as int]);
            return false;
        }
        assert(s@.take(j + 1) == s@.take(j as int).push(s@[j as int]));
        assert(pat@.take(j + 1) == pat@.take(j as int).push(pat@[j as int]));
        j = j + 1;
    }
    assert(pat@.take(pat@.len() as int) == pat@);
    true
}

/// Equality of two character sequences.
pub fn chars_eq(a: &[char], b: &[char]) -> (r: bool)
    ensures
        r == (a@ == b@),
{
    if a.len() != b.len() {
        return false;
    }
    let r = starts_with_chars(a, b);
    proof {
        assert(a@.take(b@.len() as int) =~= a@);
    }
    r
}


/// Number of bytes of the UTF-8 encoding of `c`.
pub open spec fn utf8_width(c: char) -> nat {
    let u = c as u32;
    if u < 0x80 {
        1
    } else if u < 0x800 {
        2
    } else if u < 0x10000 {
        3
    } else {
        4
    }
}

/// Number of bytes of the UTF-8 encoding of `s` (what `str::len` answers).
pub open spec fn utf8_len(s: Seq<char>) -> nat
    decreases s.len(),
{
    if s.len() == 0 {
        0
    } else {
        utf8_len(s.drop_last()) + utf8_width(s.last())
    }
}

/// Byte offset `b` of the UTF-8 encoding of `s` falls between two characters
/// (what `str::is_char_boundary` answers).
pub open spec fn is_byte_boundary(s: Seq<char>, b: int) -> bool {
    exists|k: int| 0 <= k <= s.len() && utf8_len(#[trigger] s.take(k)) == b
}

/// Number of characters left after dropping characters from the end of `s` until its
/// UTF-8 encoding is at most `limit` bytes long.
pub open spec fn fit_count(s: Seq<char>, limit: nat) -> nat
    decreases s.len(),
{
    if utf8_len(s) <= limit || s.len() == 0 {
        s.len()
    } else {
        fit_count(s.drop_last(), limit)
    }
}

proof fn lemma_encode_utf8_push(s: Seq<char>, c: char)
    ensures
        vstd::utf8::encode_utf8(s.push(c)) == vstd::utf8::encode_utf8(s) + vstd::utf8::encode_scalar(c as u32),
    decreases s.len(),
{
    if s.len() == 0 {
        assert(s.push(c).drop_first() =~= Seq::<char>::empty());
        assert(vstd::utf8::encode_utf8(Seq::<char>::empty()) =~= Seq::<u8>::empty());
        assert(vstd::utf8::encode_utf8(s) =~= Seq::<u8>::empty());
        assert(vstd::utf8::encode_utf8(s.push(c)) =~= vstd::utf8::encode_scalar(c as u32));
    } else {
        lemma_encode_utf8_push(s.drop_first(), c);
        assert(s.push(c).drop_first() =~= s.drop_first().push(c));
        assert(vstd::utf8::encode_utf8(s.push(c)) =~= vstd::utf8::encode_scalar(s[0] as u32)
            + vstd::utf8::encode_utf8(s.drop_first().push(c)));
    }
}

/// `utf8_len` is the length of vstd's `encode_utf8`, hence of `str::len`.
pub proof fn lemma_utf8_len_is_encoding_len(s: Seq<char>)
    ensures
        utf8_len(s) == vstd::utf8::encode_utf8(s).len(),
    decreases s.len(),
{
    if s.len() > 0 {
        lemma_utf8_len_is_encoding_len(s.drop_last());
        lemma_encode_utf8_push(s.drop_last(), s.last());
        vstd::utf8::char_is_scalar(s.last());
        assert(s.drop_last().push(s.last()) =~= s);
    } else {
        assert(vstd::utf8::encode_utf8(s) =~= Seq::<u8>::empty());
    }
}

/// Extending a prefix by one character adds that character's width.
pub proof fn lemma_utf8_len_take_step(s: Seq<char>, k: int)
    requires
        0 <= k < s.len(),
    ensures
        utf8_len(s.take(k + 1)) == utf8_len(s.take(k)) + utf8_width(s[k]),
{
    assert(s.take(k + 1).drop_last() =~= s.take(k));
}

/// UTF-8 length grows with the prefix.
pub proof fn lemma_utf8_len_take_mono(s: Seq<char>, a: int, b: int)
    requires
        0 <= a <= b <= s.len(),
    ensures
        utf8_len(s.take(a)) + (b - a) <= utf8_len(s.take(b)),
    decreases b - a,
{
    if a < b {
        lemma_utf8_len_take_mono(s, a, b - 1);
        lemma_utf8_len_take_step(s, b - 1);
    }
}

proof fn lemma_fit_count_take(s: Seq<char>, limit: nat, k: int, j: int)
    requires
        0 <= k <= j <= s.len(),
        utf8_len(s.take(k)) <= limit,
        k < s.len() ==> utf8_len(s.take(k + 1)) > limit,
    ensures
        fit_count(s.take(j), limit) == k,
    decreases j - k,
{
    if j > k {
        lemma_fit_count_take(s, limit, k, j - 1);
        lemma_utf8_len_take_mono(s, k + 1, j);
        assert(s.take(j).drop_last() =~= s.take(j - 1));
    }
}

/// Number of UTF-8 bytes of one character.
pub fn utf8_width_of(c: char) -> (w: usize)
    ensures
        w == utf8_width(c),
        1 <= w <= 4,
{
    let u = c as u32;
    if u < 0x80 {
        1
    } else if u < 0x800 {
        2
    } else if u < 0x10000 {
        3
    } else {
        4
    }
}

/// The number of leading characters of `s` that fit in `limit` UTF-8 bytes:
/// `fit_count(s, limit)`; all of `s` fits exactly when `utf8_len(s) <= limit`.
pub fn utf8_fit(s: &[char], limit: usize) -> (k: usize)
    ensures
        k == fit_count(s@, limit as nat),
        k <= s@.len(),
        utf8_len(s@.take(k as int)) <= limit,
        (k == s@.len()) == (utf8_len(s@) <= limit),
{
    let mut k: usize = 0;
    let mut n: usize = 0;
    while k < s.len() && utf8_width_of(s[k]) <= limit - n
        invariant
            k <= s@.len(),
            n == utf8_len(s@.take(k as int)),
            n <= limit,
        decreases s@.len() - k,
    {
        let w = utf8_width_of(s[k]);
        proof {
            lemma_utf8_len_take_step(s@, k as int);
        }
        n = n + w;
        k = k + 1;
    }
    proof {
        if k < s@.len() {
            lemma_utf8_len_take_step(s@, k as int);
        }
        lemma_fit_count_take(s@, limit as nat, k as int, s@.len() as int);
        assert(s@.take(s@.len() as int) =~= s@);
        if k < s@.len() {
            lemma_utf8_len_take_mono(s@, k + 1, s@.len() as int);
        }
    }
    k
}


/// The UTF-8 length of `s` when it is at most `cap`, and `cap + 1` otherwise.
pub fn utf8_len_capped(s: &[char], cap: usize) -> (r: usize)
    requires
        cap <= usize::MAX - 8,
    ensures
        utf8_len(s@) <= cap ==> r == utf8_len(s@),
        utf8_len(s@) > cap ==> r == cap + 1,
{
    let mut k: usize = 0;
    let mut n: usize = 0;
    while k < s.len() && n <= cap
        invariant
            cap <= usize::MAX - 8,
            k <= s@.len(),
            n == utf8_len(s@.take(k as int)),
            n <= cap + 4,
        decreases s@.len() - k,
    {
        proof {
            lemma_utf8_len_take_step(s@, k as int);
        }
        n = n + utf8_width_of(s[k]);
        k = k + 1;
    }
    proof {
        assert(s@.take(s@.len() as int) =~= s@);
        lemma_utf8_len_take_mono(s@, k as int, s@.len() as int);
    }
    if n > cap {
        cap + 1
    } else {
        n
    }
}


/// Whether byte offset `b` of the UTF-8 encoding of `s` falls between characters.
pub fn is_byte_boundary_chars(s: &[char], b: usize) -> (r: bool)
    requires
        b <= usize::MAX - 8,
    ensures
        r == is_byte_boundary(s@, b as int),
{
    let mut k: usize = 0;
    let mut n: usize = 0;
    while k < s.len() && n < b
        invariant
            b <= usize::MAX - 8,
            k <= s@.len(),
            n == utf8_len(s@.take(k as int)),
            n <= b + 4,
            forall|j: int| 0 <= j < k ==> utf8_len(#[trigger] s@.take(j)) < b,
        decreases s@.len() - k,
    {
        proof {
            lemma_utf8_len_take_step(s@, k as int);
            assert forall|j: int| 0 <= j < k + 1 implies utf8_len(#[trigger] s@.take(j)) < b by {
                if j == k {
                } else {
                }
            }
        }
        n = n + utf8_width_of(s[k]);
        k = k + 1;
    }
    proof {
        if n == b {
            assert(0 <= k <= s@.len() && utf8_len(s@.take(k as int)) == b);
        } else {
            assert forall|j: int| 0 <= j <= s@.len() implies utf8_len(#[trigger] s@.take(j)) != b by {
                if j > k {
                    lemma_utf8_len_take_mono(s@, k as int, j);
                }
                if j == k && k == s@.len() {
                    assert(n < b || n > b);
                }
            }
        }
    }
    n == b
}


/// The UTF-8 length of a concatenation is the sum of the lengths.
pub proof fn lemma_utf8_len_concat(a: Seq<char>, b: Seq<char>)
    ensures
        utf8_len(a + b) == utf8_len(a) + utf8_len(b),
    decreases b.len(),
{
    if b.len() == 0 {
        assert(a + b =~= a);
    } else {
        lemma_utf8_len_concat(a, b.drop_last());
        assert((a + b).drop_last() =~= a + b.drop_last());
        assert((a + b).last() == b.last());
    }
}

} // verus!
