//! Operations on text that the rest of the library is built from.
//!
//! Everything is stated over the sequence of characters that a string holds.

use vstd::prelude::*;
use vstd::slice::slice_subrange;
use vstd::string::*;

verus! {

broadcast use vstd::string::group_string_axioms;

// ---------------------------------------------------------------------------
// What the standard library does with text
// ---------------------------------------------------------------------------

/// `String::push` appends one character to the end of the string.
pub assume_specification [String::push] (s: &mut String, ch: char)
    ensures
        final(s)@ == old(s)@.push(ch),
;

/// What `str::to_lowercase` makes of a text.
pub uninterp spec fn lowercase(s: Seq<char>) -> Seq<char>;

/// `str::to_lowercase`: the Unicode lower-case form, which depends on the text
/// alone and not on any locale.
#[verifier::external_body]
pub(crate) fn to_lowercase(s: &str) -> (r: String)
    ensures
        r@ == lowercase(s@),
{
    s.to_lowercase()
}

/// What `String::from_utf8_lossy` makes of a byte string.
pub uninterp spec fn utf8_lossy(bytes: Seq<u8>) -> Seq<char>;

/// `String::from_utf8_lossy`: the text that valid UTF-8 encodes; invalid
/// sequences are replaced, in a way that depends on the bytes alone.
#[verifier::external_body]
pub(crate) fn from_utf8_lossy(bytes: &[u8]) -> (r: String)
    ensures
        r@ == utf8_lossy(bytes@),
        vstd::utf8::valid_utf8(bytes@) ==> r@ == vstd::utf8::decode_utf8(bytes@),
{
    String::from_utf8_lossy(bytes).into_owned()
}

/// The quoted and escaped form in which `{:?}` shows a text.
pub uninterp spec fn quoted(s: Seq<char>) -> Seq<char>;

/// `format!` with `{:?}` on a `str`: the text in double quotes, escaped.
#[verifier::external_body]
pub(crate) fn debug_quoted(s: &str) -> (r: String)
    ensures
        r@ == quoted(s@),
{
    format!("{:?}", s)
}

// ---------------------------------------------------------------------------
// Characters and strings
// ---------------------------------------------------------------------------

/// The characters of a string, one by one.
pub fn chars_of(s: &str) -> (v: Vec<char>)
    ensures
        v@ == s@,
{
    let mut v: Vec<char> = Vec::new();
    for c in it: s.chars()
        invariant
            v@ == it.seq().take(it.index() as int),
            it.seq() == s@,
    {
        v.push(c);
    }
    v
}

/// The string made of the given characters.
pub fn string_of(v: &[char]) -> (s: String)
    ensures
        s@ == v@,
{
    let mut s: String = String::new();
    let mut i: usize = 0;
    while i < v.len()
        invariant
            i <= v@.len(),
            s@ == v@.take(i as int),
        decreases v@.len() - i,
    {
        s.push(v[i]);
        assert(v@.take(i + 1) == v@.take(i as int).push(v@[i as int]));
        i = i + 1;
    }
    s
}

/// Whether two slices hold the same characters.
pub fn same_chars(a: &[char], b: &[char]) -> (r: bool)
    ensures
        r == (a@ == b@),
{
    if a.len() != b.len() {
        return false;
    }
    let mut i: usize = 0;
    while i < a.len()
        invariant
            i <= a@.len(),
            a@.len() == b@.len(),
            a@.take(i as int) == b@.take(i as int),
        decreases a@.len() - i,
    {
        if a[i] != b[i] {
            return false;
        }
        assert(a@.take(i + 1) == a@.take(i as int).push(a@[i as int]));
        assert(b@.take(i + 1) == b@.take(i as int).push(b@[i as int]));
        i = i + 1;
    }
    assert(a@.take(i as int) == a@);
    assert(b@.take(i as int) == b@);
    true
}

/// Whether two strings are the same text.
pub fn same_text(a: &str, b: &str) -> (r: bool)
    ensures
        r == (a@ == b@),
{
    let x = chars_of(a);
    let y = chars_of(b);
    same_chars(x.as_slice(), y.as_slice())
}

/// The texts of a list of strings.
pub open spec fn texts(v: Seq<String>) -> Seq<Seq<char>> {
    Seq::new(v.len(), |i: int| v[i]@)
}

/// The text of an optional string.
pub open spec fn opt_text(s: Option<String>) -> Option<Seq<char>> {
    match s {
        Some(t) => Some(t@),
        None => None,
    }
}

/// Whether two optional strings are both absent or hold the same text.
pub fn same_opt_text(a: &Option<String>, b: &Option<String>) -> (r: bool)
    ensures
        r == (opt_text(*a) == opt_text(*b)),
{
    match (a, b) {
        (Some(x), Some(y)) => same_text(x.as_str(), y.as_str()),
        (None, None) => true,
        _ => false,
    }
}

/// A copy of an optional string.
pub fn copy_opt(s: &Option<String>) -> (r: Option<String>)
    ensures
        r == *s,
{
    match s {
        Some(t) => Some(t.clone()),
        None => None,
    }
}

/// An optional string borrowed as text.
pub open spec fn opt_str(s: Option<&str>) -> Option<Seq<char>> {
    match s {
        Some(t) => Some(t@),
        None => None,
    }
}

// ---------------------------------------------------------------------------
// White space
// ---------------------------------------------------------------------------

/// The characters with the Unicode property `White_Space`.
pub open spec fn is_white(c: char) -> bool {
    let n = c as u32;
    ||| 0x9 <= n <= 0xd
    ||| n == 0x20
    ||| n == 0x85
    ||| n == 0xa0
    ||| n == 0x1680
    ||| 0x2000 <= n <= 0x200a
    ||| n == 0x2028
    ||| n == 0x2029
    ||| n == 0x202f
    ||| n == 0x205f
    ||| n == 0x3000
}

fn white(c: char) -> (r: bool)
    ensures
        r == is_white(c),
{
    let n: u32 = c as u32;
    (0x9 <= n && n <= 0xd) || n == 0x20 || n == 0x85 || n == 0xa0 || n == 0x1680 || (0x2000 <= n
        && n <= 0x200a) || n == 0x2028 || n == 0x2029 || n == 0x202f || n == 0x205f || n == 0x3000
}

/// A text without its leading white space.
pub open spec fn trim_start(s: Seq<char>) -> Seq<char>
    decreases s.len(),
{
    if s.len() > 0 && is_white(s[0]) {
        trim_start(s.drop_first())
    } else {
        s
    }
}

/// A text without its trailing white space.
pub open spec fn trim_end(s: Seq<char>) -> Seq<char>
    decreases s.len(),
{
    if s.len() > 0 && is_white(s.last()) {
        trim_end(s.drop_last())
    } else {
        s
    }
}

/// A text without the white space on either side.
pub open spec fn trim(s: Seq<char>) -> Seq<char> {
    trim_end(trim_start(s))
}

/// Slice form of [`trim_start`].
pub fn trimmed_start(s: &[char]) -> (r: &[char])
    ensures
        r@ == trim_start(s@),
{
    let mut i: usize = 0;
    assert(s@.skip(0) == s@);
    while i < s.len() && white(s[i])
        invariant
            i <= s@.len(),
            trim_start(s@) == trim_start(s@.skip(i as int)),
        decreases s@.len() - i,
    {
        assert(s@.skip(i as int).drop_first() == s@.skip(i + 1));
        i = i + 1;
    }
    assert(s@.subrange(i as int, s@.len() as int) == s@.skip(i as int));
    slice_subrange(s, i, s.len())
}

/// Slice form of [`trim_end`].
pub fn trimmed_end(s: &[char]) -> (r: &[char])
    ensures
        r@ == trim_end(s@),
{
    let mut n: usize = s.len();
    assert(s@.take(n as int) == s@);
    while n > 0 && white(s[n - 1])
        invariant
            n <= s@.len(),
            trim_end(s@) == trim_end(s@.take(n as int)),
        decreases n,
    {
        assert(s@.take(n as int).drop_last() == s@.take(n - 1));
        n = n - 1;
    }
    assert(s@.subrange(0, n as int) == s@.take(n as int));
    slice_subrange(s, 0, n)
}

/// Slice form of [`trim`].
pub fn trimmed(s: &[char]) -> (r: &[char])
    ensures
        r@ == trim(s@),
{
    trimmed_end(trimmed_start(s))
}

/// A text without its trailing occurrences of one character.
pub open spec fn trim_end_of(s: Seq<char>, c: char) -> Seq<char>
    decreases s.len(),
{
    if s.len() > 0 && s.last() == c {
        trim_end_of(s.drop_last(), c)
    } else {
        s
    }
}

/// Slice form of [`trim_end_of`].
pub fn trimmed_end_of(s: &[char], c: char) -> (r: &[char])
    ensures
        r@ == trim_end_of(s@, c),
{
    let mut n: usize = s.len();
    assert(s@.take(n as int) == s@);
    while n > 0 && s[n - 1] == c
        invariant
            n <= s@.len(),
            trim_end_of(s@, c) == trim_end_of(s@.take(n as int), c),
        decreases n,
    {
        assert(s@.take(n as int).drop_last() == s@.take(n - 1));
        n = n - 1;
    }
    assert(s@.subrange(0, n as int) == s@.take(n as int));
    slice_subrange(s, 0, n)
}

/// A text without its leading occurrences of one character.
pub open spec fn trim_start_of(s: Seq<char>, c: char) -> Seq<char>
    decreases s.len(),
{
    if s.len() > 0 && s[0] == c {
        trim_start_of(s.drop_first(), c)
    } else {
        s
    }
}

/// Slice form of [`trim_start_of`].
pub fn trimmed_start_of(s: &[char], c: char) -> (r: &[char])
    ensures
        r@ == trim_start_of(s@, c),
{
    let mut i: usize = 0;
    assert(s@.skip(0) == s@);
    while i < s.len() && s[i] == c
        invariant
            i <= s@.len(),
            trim_start_of(s@, c) == trim_start_of(s@.skip(i as int), c),
        decreases s@.len() - i,
    {
        assert(s@.skip(i as int).drop_first() == s@.skip(i + 1));
        i = i + 1;
    }
    assert(s@.subrange(i as int, s@.len() as int) == s@.skip(i as int));
    slice_subrange(s, i, s.len())
}

// ---------------------------------------------------------------------------
// ASCII case
// ---------------------------------------------------------------------------

/// `c` with an ASCII capital replaced by its small letter.
pub open spec fn lower_char(c: char) -> char {
    if 'A' <= c <= 'Z' {
        (c as u32 + 32) as char
    } else {
        c
    }
}

/// `s` with every ASCII capital replaced by its small letter.
pub open spec fn ascii_lower(s: Seq<char>) -> Seq<char> {
    Seq::new(s.len(), |i: int| lower_char(s[i]))
}

/// Whether two texts differ at most in the case of their ASCII letters.
pub open spec fn same_ignoring_case(a: Seq<char>, b: Seq<char>) -> bool {
    ascii_lower(a) == ascii_lower(b)
}

pub fn lowered(c: char) -> (r: char)
    ensures
        r == lower_char(c),
{
    if 'A' <= c && c <= 'Z' {
        let n: u32 = c as u32;
        (n as u8 + 32u8) as char
    } else {
        c
    }
}

/// Slice form of [`ascii_lower`].
pub fn to_ascii_lower(s: &[char]) -> (r: Vec<char>)
    ensures
        r@ == ascii_lower(s@),
{
    let mut r: Vec<char> = Vec::new();
    let mut i: usize = 0;
    while i < s.len()
        invariant
            i <= s@.len(),
            r@ == ascii_lower(s@.take(i as int)),
        decreases s@.len() - i,
    {
        r.push(lowered(s[i]));
        assert(ascii_lower(s@.take(i + 1)) == ascii_lower(s@.take(i as int)).push(
            lower_char(s@[i as int]),
        ));
        i = i + 1;
    }
    assert(s@.take(i as int) == s@);
    r
}

/// Whether two slices are the same text up to ASCII case.
pub fn eq_ignoring_case(a: &[char], b: &[char]) -> (r: bool)
    ensures
        r == same_ignoring_case(a@, b@),
{
    let x = to_ascii_lower(a);
    let y = to_ascii_lower(b);
    same_chars(x.as_slice(), y.as_slice())
}

/// Whether two strings are the same text up to ASCII case.
pub fn text_eq_ignoring_case(a: &str, b: &str) -> (r: bool)
    ensures
        r == same_ignoring_case(a@, b@),
{
    let x = chars_of(a);
    let y = chars_of(b);
    eq_ignoring_case(x.as_slice(), y.as_slice())
}

// ---------------------------------------------------------------------------
// Searching and splitting
// ---------------------------------------------------------------------------

/// Where `c` first stands in `s`, or the length of `s`.
pub open spec fn index_of(s: Seq<char>, c: char) -> nat
    decreases s.len(),
{
    if s.len() == 0 || s[0] == c {
        0
    } else {
        1 + index_of(s.drop_first(), c)
    }
}

/// The first index of a character, told by what stands before it.
pub proof fn lemma_index_of(s: Seq<char>, c: char, k: int)
    requires
        0 <= k <= s.len(),
        forall|j: int| 0 <= j < k ==> s[j] != c,
        k < s.len() ==> s[k] == c,
    ensures
        index_of(s, c) == k,
    decreases s.len(),
{
    if s.len() != 0 && s[0] != c {
        assert forall|j: int| 0 <= j < k - 1 implies s.drop_first()[j] != c by {
            assert(s.drop_first()[j] == s[j + 1]);
        }
        lemma_index_of(s.drop_first(), c, k - 1);
    }
}

pub proof fn lemma_index_of_bound(s: Seq<char>, c: char)
    ensures
        index_of(s, c) <= s.len(),
        index_of(s, c) < s.len() ==> s[index_of(s, c) as int] == c,
        forall|j: int| 0 <= j < index_of(s, c) ==> s[j] != c,
    decreases s.len(),
{
    if s.len() != 0 && s[0] != c {
        lemma_index_of_bound(s.drop_first(), c);
        assert forall|j: int| 0 <= j < index_of(s, c) implies s[j] != c by {
            if j > 0 {
                assert(s[j] == s.drop_first()[j - 1]);
            }
        }
    }
}

/// Slice form of [`index_of`].
pub fn find_char(s: &[char], c: char) -> (r: usize)
    ensures
        r == index_of(s@, c),
        r <= s@.len(),
{
    let mut i: usize = 0;
    while i < s.len()
        invariant
            i <= s@.len(),
            forall|j: int| 0 <= j < i ==> s@[j] != c,
        decreases s@.len() - i,
    {
        if s[i] == c {
            proof {
                lemma_index_of(s@, c, i as int);
            }
            return i;
        }
        i = i + 1;
    }
    proof {
        lemma_index_of(s@, c, i as int);
    }
    i
}

/// The two parts of `s` around the first `c`, if there is one.
pub open spec fn split_once(s: Seq<char>, c: char) -> Option<(Seq<char>, Seq<char>)> {
    let i = index_of(s, c) as int;
    if i < s.len() {
        Some((s.take(i), s.skip(i + 1)))
    } else {
        None
    }
}

/// Slice form of [`split_once`].
pub fn split_at_char(s: &[char], c: char) -> (r: Option<(&[char], &[char])>)
    ensures
        (match r {
            Some((a, b)) => split_once(s@, c) == Some((a@, b@)),
            None => split_once(s@, c) is None,
        }),
{
    let i = find_char(s, c);
    if i < s.len() {
        assert(s@.subrange(0, i as int) == s@.take(i as int));
        assert(s@.subrange(i + 1, s@.len() as int) == s@.skip(i + 1));
        Some((slice_subrange(s, 0, i), slice_subrange(s, i + 1, s.len())))
    } else {
        None
    }
}

/// Whether `p` stands in `s` at position `i`.
pub open spec fn occurs_at(s: Seq<char>, p: Seq<char>, i: int) -> bool {
    0 <= i && i + p.len() <= s.len() && s.subrange(i, i + p.len()) == p
}

/// Whether `p` stands anywhere in `s`.
pub open spec fn occurs(s: Seq<char>, p: Seq<char>) -> bool {
    exists|i: int| occurs_at(s, p, i)
}

pub fn found_at(s: &[char], p: &[char], i: usize) -> (r: bool)
    requires
        i <= s@.len(),
    ensures
        r == occurs_at(s@, p@, i as int),
{
    if p.len() > s.len() - i {
        return false;
    }
    same_chars(slice_subrange(s, i, i + p.len()), p)
}

/// Slice form of [`occurs`].
pub fn found(s: &[char], p: &[char]) -> (r: bool)
    ensures
        r == occurs(s@, p@),
{
    let mut i: usize = 0;
    while i <= s.len()
        invariant
            i <= s@.len() + 1,
            forall|j: int| 0 <= j < i ==> !occurs_at(s@, p@, j),
        decreases s@.len() + 1 - i,
    {
        if found_at(s, p, i) {
            return true;
        }
        if i == s.len() {
            return false;
        }
        i = i + 1;
    }
    false
}

/// Whether `s` begins with `p`.
pub open spec fn starts_with(s: Seq<char>, p: Seq<char>) -> bool {
    p.len() <= s.len() && s.take(p.len() as int) == p
}

/// Whether `s` ends with `p`.
pub open spec fn ends_with(s: Seq<char>, p: Seq<char>) -> bool {
    p.len() <= s.len() && s.skip(s.len() - p.len()) == p
}

/// Slice form of [`starts_with`].
pub fn has_prefix(s: &[char], p: &[char]) -> (r: bool)
    ensures
        r == starts_with(s@, p@),
{
    if p.len() > s.len() {
        return false;
    }
    assert(s@.subrange(0, p@.len() as int) == s@.take(p@.len() as int));
    same_chars(slice_subrange(s, 0, p.len()), p)
}

/// Slice form of [`ends_with`].
pub fn has_suffix(s: &[char], p: &[char]) -> (r: bool)
    ensures
        r == ends_with(s@, p@),
{
    if p.len() > s.len() {
        return false;
    }
    let k: usize = s.len() - p.len();
    assert(s@.subrange(k as int, s@.len() as int) == s@.skip(k as int));
    same_chars(slice_subrange(s, k, s.len()), p)
}

/// What follows the prefix `p` of `s`, if `s` begins with it.
pub open spec fn strip_prefix(s: Seq<char>, p: Seq<char>) -> Option<Seq<char>> {
    if starts_with(s, p) {
        Some(s.skip(p.len() as int))
    } else {
        None
    }
}

/// What stands before the suffix `p` of `s`, if `s` ends with it.
pub open spec fn strip_suffix(s: Seq<char>, p: Seq<char>) -> Option<Seq<char>> {
    if ends_with(s, p) {
        Some(s.take(s.len() - p.len()))
    } else {
        None
    }
}

/// Slice form of [`strip_prefix`].
pub fn without_prefix<'a>(s: &'a [char], p: &[char]) -> (r: Option<&'a [char]>)
    ensures
        r is Some == (strip_prefix(s@, p@) is Some),
        r is Some ==> r->0@ == strip_prefix(s@, p@)->0,
{
    if has_prefix(s, p) {
        assert(s@.subrange(p@.len() as int, s@.len() as int) == s@.skip(p@.len() as int));
        Some(slice_subrange(s, p.len(), s.len()))
    } else {
        None
    }
}

/// Slice form of [`strip_suffix`].
pub fn without_suffix<'a>(s: &'a [char], p: &[char]) -> (r: Option<&'a [char]>)
    ensures
        r is Some == (strip_suffix(s@, p@) is Some),
        r is Some ==> r->0@ == strip_suffix(s@, p@)->0,
{
    if has_suffix(s, p) {
        let k: usize = s.len() - p.len();
        assert(s@.subrange(0, k as int) == s@.take(k as int));
        Some(slice_subrange(s, 0, k))
    } else {
        None
    }
}

/// The rows of a list of character vectors.
pub open spec fn rows(v: Seq<Vec<char>>) -> Seq<Seq<char>> {
    Seq::new(v.len(), |i: int| v[i]@)
}

/// The pieces of `s` between occurrences of `c`: always one more than there
/// are occurrences.
pub open spec fn split(s: Seq<char>, c: char) -> Seq<Seq<char>>
    decreases s.len(),
{
    let i = index_of(s, c) as int;
    if 0 <= i < s.len() {
        seq![s.take(i)] + split(s.skip(i + 1), c)
    } else {
        seq![s]
    }
}

/// Slice form of [`split`].
pub fn split_chars(s: &[char], c: char) -> (r: Vec<Vec<char>>)
    ensures
        rows(r@) == split(s@, c),
{
    let mut r: Vec<Vec<char>> = Vec::new();
    let mut from: usize = 0;
    assert(rows(r@) + split(s@.skip(0), c) == split(s@, c)) by {
        assert(s@.skip(0) == s@);
        assert(rows(r@) + split(s@, c) == split(s@, c));
    }
    loop
        invariant
            from <= s@.len(),
            rows(r@) + split(s@.skip(from as int), c) == split(s@, c),
        decreases s@.len() + 1 - from,
    {
        let rest = slice_subrange(s, from, s.len());
        assert(rest@ == s@.skip(from as int));
        let i = find_char(rest, c);
        let ghost before = r@;
        if i == rest.len() {
            r.push(vstd::slice::slice_to_vec(rest));
            assert(rows(r@) == rows(before) + seq![rest@]);
            return r;
        }
        let piece = slice_subrange(rest, 0, i);
        r.push(vstd::slice::slice_to_vec(piece));
        proof {
            assert(piece@ == rest@.take(i as int));
            assert(rest@.skip(i + 1) == s@.skip(from + i + 1));
            assert(rows(r@) == rows(before) + seq![piece@]);
            assert(rows(r@) + split(s@.skip(from + i + 1), c) == rows(before) + (seq![piece@]
                + split(s@.skip(from + i + 1), c)));
        }
        from = from + i + 1;
    }
}

/// Where `p` first stands in `s`.
pub open spec fn first_occurrence(s: Seq<char>, p: Seq<char>) -> Option<int>
    decreases s.len(),
{
    if occurs_at(s, p, 0) {
        Some(0)
    } else if s.len() == 0 {
        None
    } else {
        match first_occurrence(s.drop_first(), p) {
            Some(i) => Some(i + 1),
            None => None,
        }
    }
}

pub proof fn lemma_first_occurrence(s: Seq<char>, p: Seq<char>)
    ensures
        first_occurrence(s, p) is Some ==> 0 <= first_occurrence(s, p)->0 && first_occurrence(
            s,
            p,
        )->0 + p.len() <= s.len(),
    decreases s.len(),
{
    if !occurs_at(s, p, 0) && s.len() > 0 {
        lemma_first_occurrence(s.drop_first(), p);
    }
}

/// Slice form of [`first_occurrence`].
pub fn find_text(s: &[char], p: &[char]) -> (r: Option<usize>)
    ensures
        (match r {
            Some(i) => first_occurrence(s@, p@) == Some(i as int) && i + p@.len() <= s@.len(),
            None => first_occurrence(s@, p@) is None,
        }),
{
    let size: usize = s.len();
    let mut i: usize = 0;
    assert(s@.skip(0) =~= s@);
    proof {
        lemma_first_occurrence(s@, p@);
    }
    loop
        invariant
            i <= size == s@.len(),
            first_occurrence(s@, p@) is Some ==> first_occurrence(s@, p@)->0 + p@.len() <= s@.len(),
            first_occurrence(s@, p@) == (match first_occurrence(s@.skip(i as int), p@) {
                Some(k) => Some(k + i),
                None => None,
            }),
        decreases size - i,
    {
        proof {
            let rest = s@.skip(i as int);
            assert(occurs_at(s@, p@, i as int) == occurs_at(rest, p@, 0)) by {
                if i + p@.len() <= s@.len() {
                    assert(rest.subrange(0, p@.len() as int) =~= s@.subrange(
                        i as int,
                        i + p@.len(),
                    ));
                }
            }
        }
        if found_at(s, p, i) {
            return Some(i);
        }
        if i == size {
            return None;
        }
        assert(s@.skip(i as int).drop_first() =~= s@.skip(i + 1));
        i = i + 1;
    }
}

/// The pieces of `s` between occurrences of `p`, which is not empty.
pub open spec fn split_by(s: Seq<char>, p: Seq<char>) -> Seq<Seq<char>>
    decreases s.len(),
{
    match first_occurrence(s, p) {
        Some(i) => if 0 <= i && 0 < p.len() && i + p.len() <= s.len() {
            seq![s.take(i)] + split_by(s.skip(i + p.len()), p)
        } else {
            seq![s]
        },
        None => seq![s],
    }
}

/// Slice form of [`split_by`].
pub fn split_text(s: &[char], p: &[char]) -> (r: Vec<Vec<char>>)
    requires
        p@.len() > 0,
    ensures
        rows(r@) == split_by(s@, p@),
{
    let size: usize = s.len();
    let mut r: Vec<Vec<char>> = Vec::new();
    let mut from: usize = 0;
    assert(s@.skip(0) =~= s@);
    assert(rows(r@) + split_by(s@, p@) =~= split_by(s@, p@));
    loop
        invariant
            p@.len() > 0,
            from <= size == s@.len(),
            rows(r@) + split_by(s@.skip(from as int), p@) == split_by(s@, p@),
        decreases size - from,
    {
        let rest = slice_subrange(s, from, size);
        assert(rest@ =~= s@.skip(from as int));
        let ghost before = r@;
        match find_text(rest, p) {
            Some(i) => {
                let piece = slice_subrange(rest, 0, i);
                r.push(vstd::slice::slice_to_vec(piece));
                proof {
                    assert(piece@ =~= rest@.take(i as int));
                    assert(rest@.skip(i + p@.len()) =~= s@.skip(from + i + p@.len()));
                    assert(rows(r@) =~= rows(before) + seq![piece@]);
                    assert(rows(r@) + split_by(s@.skip(from + i + p@.len()), p@) =~= rows(before)
                        + (seq![piece@] + split_by(s@.skip(from + i + p@.len()), p@)));
                }
                from = from + (i + p.len());
            },
            None => {
                r.push(vstd::slice::slice_to_vec(rest));
                assert(rows(r@) =~= rows(before) + seq![rest@]);
                return r;
            },
        }
    }
}

// ---------------------------------------------------------------------------
// Numbers
// ---------------------------------------------------------------------------

/// The character of a decimal digit.
pub open spec fn digit_char(d: int) -> char {
    (48 + d) as char
}

pub open spec fn is_digit(c: char) -> bool {
    '0' <= c <= '9'
}

pub open spec fn digit_value(c: char) -> int {
    c as int - 48
}

/// A number in decimal, without leading zeros.
pub open spec fn decimal(n: nat) -> Seq<char>
    decreases n,
{
    if n < 10 {
        seq![digit_char(n as int)]
    } else {
        decimal(n / 10).push(digit_char((n % 10) as int))
    }
}

/// A signed number in decimal.
pub open spec fn signed_decimal(n: int) -> Seq<char> {
    if n < 0 {
        seq!['-'] + decimal((-n) as nat)
    } else {
        decimal(n as nat)
    }
}

fn push_decimal(n: u128, out: &mut String)
    ensures
        final(out)@ == old(out)@ + decimal(n as nat),
    decreases n,
{
    if n >= 10 {
        push_decimal(n / 10, out);
    }
    let d: u8 = (n % 10) as u8;
    let ghost before = out@;
    out.push((48 + d) as char);
    proof {
        if n >= 10 {
            assert(old(out)@ + decimal(n as nat) == before.push(digit_char((n % 10) as int)));
        } else {
            assert(old(out)@ + decimal(n as nat) == before.push(digit_char(n as int)));
        }
    }
}

/// Executable [`decimal`].
pub fn to_decimal(n: u64) -> (r: String)
    ensures
        r@ == decimal(n as nat),
{
    to_decimal_wide(n as u128)
}

/// Executable [`decimal`] for wider numbers.
pub fn to_decimal_wide(n: u128) -> (r: String)
    ensures
        r@ == decimal(n as nat),
{
    let mut s: String = String::new();
    push_decimal(n, &mut s);
    assert(s@ == decimal(n as nat));
    s
}

/// Executable [`signed_decimal`].
pub fn to_signed_decimal(n: i64) -> (r: String)
    ensures
        r@ == signed_decimal(n as int),
{
    let mut s: String = String::new();
    if n < 0 {
        s.push('-');
        let m: u128 = (-(n as i128)) as u128;
        push_decimal(m, &mut s);
        assert(s@ == seq!['-'] + decimal(m as nat));
    } else {
        push_decimal(n as u128, &mut s);
        assert(s@ == decimal(n as nat));
    }
    s
}

pub open spec fn all_digits(s: Seq<char>) -> bool {
    forall|i: int| 0 <= i < s.len() ==> is_digit(#[trigger] s[i])
}

/// The value of a string of decimal digits.
pub open spec fn digits_value(s: Seq<char>) -> int
    decreases s.len(),
{
    if s.len() == 0 {
        0
    } else {
        10 * digits_value(s.drop_last()) + digit_value(s.last())
    }
}

pub proof fn lemma_digits_value_bound(s: Seq<char>)
    requires
        all_digits(s),
    ensures
        digits_value(s) >= 0,
    decreases s.len(),
{
    if s.len() > 0 {
        assert(all_digits(s.drop_last()));
        lemma_digits_value_bound(s.drop_last());
        assert(is_digit(s[s.len() - 1]));
    }
}

pub proof fn lemma_digits_value_grows(s: Seq<char>, k: int)
    requires
        all_digits(s),
        0 <= k <= s.len(),
    ensures
        digits_value(s.take(k)) <= digits_value(s),
    decreases s.len() - k,
{
    if k < s.len() {
        assert(s.take(k + 1).drop_last() == s.take(k));
        assert(all_digits(s.take(k)));
        lemma_digits_value_bound(s.take(k));
        assert(is_digit(s[k]));
        lemma_digits_value_grows(s, k + 1);
    } else {
        assert(s.take(k) == s);
    }
}

/// The number that `s` spells, if it is made of decimal digits (at least one)
/// and is at most `max`.
pub open spec fn natural(s: Seq<char>, max: int) -> Option<int> {
    if s.len() > 0 && all_digits(s) && digits_value(s) <= max {
        Some(digits_value(s))
    } else {
        None
    }
}

/// The unsigned number that `s` spells: digits, behind an optional `+`.
pub open spec fn unsigned(s: Seq<char>, max: int) -> Option<int> {
    if s.len() > 0 && s[0] == '+' {
        natural(s.skip(1), max)
    } else {
        natural(s, max)
    }
}

/// The signed number that `s` spells: digits, behind an optional `+` or `-`.
pub open spec fn signed(s: Seq<char>, min: int, max: int) -> Option<int> {
    if s.len() > 0 && s[0] == '-' {
        match natural(s.skip(1), -min) {
            Some(n) => Some(-n),
            None => None,
        }
    } else {
        unsigned(s, max)
    }
}

/// Executable [`natural`].
pub fn parse_natural(s: &[char], max: u64) -> (r: Option<u64>)
    ensures
        (match r {
            Some(n) => natural(s@, max as int) == Some(n as int),
            None => natural(s@, max as int) is None,
        }),
{
    if s.len() == 0 {
        return None;
    }
    let mut n: u64 = 0;
    let mut i: usize = 0;
    while i < s.len()
        invariant
            i <= s@.len(),
            forall|j: int| 0 <= j < i ==> is_digit(#[trigger] s@[j]),
            n as int == digits_value(s@.take(i as int)),
            n <= max,
        decreases s@.len() - i,
    {
        let c: char = s[i];
        if c < '0' || c > '9' {
            assert(!is_digit(s@[i as int]));
            return None;
        }
        let d: u64 = (c as u32 - 48) as u64;
        let wide: u128 = 10 * (n as u128) + d as u128;
        assert(s@.take(i + 1).drop_last() == s@.take(i as int));
        assert(wide as int == digits_value(s@.take(i + 1)));
        if wide > max as u128 {
            proof {
                if all_digits(s@) {
                    lemma_digits_value_grows(s@, i + 1);
                }
            }
            return None;
        }
        n = wide as u64;
        i = i + 1;
    }
    assert(s@.take(i as int) == s@);
    Some(n)
}

/// Executable [`unsigned`].
pub fn parse_unsigned(s: &[char], max: u64) -> (r: Option<u64>)
    ensures
        (match r {
            Some(n) => unsigned(s@, max as int) == Some(n as int) && n <= max,
            None => unsigned(s@, max as int) is None,
        }),
{
    if s.len() > 0 && s[0] == '+' {
        assert(s@.subrange(1, s@.len() as int) == s@.skip(1));
        parse_natural(slice_subrange(s, 1, s.len()), max)
    } else {
        parse_natural(s, max)
    }
}

/// The `i32` that `s` spells.
pub fn parse_i32(s: &[char]) -> (r: Option<i32>)
    ensures
        (match r {
            Some(n) => signed(s@, i32::MIN as int, i32::MAX as int) == Some(n as int),
            None => signed(s@, i32::MIN as int, i32::MAX as int) is None,
        }),
{
    if s.len() > 0 && s[0] == '-' {
        assert(s@.subrange(1, s@.len() as int) == s@.skip(1));
        match parse_natural(slice_subrange(s, 1, s.len()), 2147483648) {
            Some(n) => Some((-(n as i64)) as i32),
            None => None,
        }
    } else {
        match parse_unsigned(s, 2147483647) {
            Some(n) => Some(n as i32),
            None => None,
        }
    }
}

// ---------------------------------------------------------------------------
// Order
// ---------------------------------------------------------------------------

/// Whether `a` comes before `b`, character by character.
pub open spec fn text_before(a: Seq<char>, b: Seq<char>) -> bool
    decreases a.len(),
{
    if b.len() == 0 {
        false
    } else if a.len() == 0 {
        true
    } else if a[0] != b[0] {
        a[0] < b[0]
    } else {
        text_before(a.drop_first(), b.drop_first())
    }
}

/// The order on texts is total: of two different texts one comes first.
pub proof fn lemma_text_order_total(a: Seq<char>, b: Seq<char>)
    ensures
        a != b ==> text_before(a, b) || text_before(b, a),
        !(text_before(a, b) && text_before(b, a)),
        a == b ==> !text_before(a, b),
    decreases a.len(),
{
    if a.len() == 0 {
        if b.len() == 0 {
            assert(a == b);
        }
    } else if b.len() > 0 && a[0] == b[0] {
        lemma_text_order_total(a.drop_first(), b.drop_first());
        if a.drop_first() == b.drop_first() {
            assert(a == seq![a[0]] + a.drop_first());
            assert(b == seq![b[0]] + b.drop_first());
            assert(a == b);
        }
    }
}

/// The order on texts is transitive.
pub proof fn lemma_text_order_transitive(a: Seq<char>, b: Seq<char>, c: Seq<char>)
    requires
        text_before(a, b),
        text_before(b, c),
    ensures
        text_before(a, c),
    decreases a.len(),
{
    if a.len() > 0 && b.len() > 0 && c.len() > 0 && a[0] == b[0] && b[0] == c[0] {
        lemma_text_order_transitive(a.drop_first(), b.drop_first(), c.drop_first());
    }
}

/// Slice form of [`text_before`].
pub fn comes_before(a: &[char], b: &[char]) -> (r: bool)
    ensures
        r == text_before(a@, b@),
{
    let mut i: usize = 0;
    assert(a@.skip(0) == a@ && b@.skip(0) == b@);
    while i < a.len() && i < b.len()
        invariant
            i <= a@.len(),
            i <= b@.len(),
            text_before(a@, b@) == text_before(a@.skip(i as int), b@.skip(i as int)),
        decreases a@.len() - i,
    {
        if a[i] != b[i] {
            return a[i] < b[i];
        }
        assert(a@.skip(i as int).drop_first() == a@.skip(i + 1));
        assert(b@.skip(i as int).drop_first() == b@.skip(i + 1));
        i = i + 1;
    }
    i < b.len()
}

// ---------------------------------------------------------------------------
// What holds of text
// ---------------------------------------------------------------------------

/// Whether a text is all white space.
pub open spec fn all_white(s: Seq<char>) -> bool {
    forall|i: int| 0 <= i < s.len() ==> is_white(#[trigger] s[i])
}

proof fn lemma_trim_start(s: Seq<char>)
    ensures
        trim_start(s).len() <= s.len(),
        trim_start(s) == s.skip(s.len() - trim_start(s).len()),
        all_white(s.take(s.len() - trim_start(s).len())),
        trim_start(s).len() > 0 ==> !is_white(trim_start(s)[0]),
    decreases s.len(),
{
    if s.len() > 0 && is_white(s[0]) {
        let rest = s.drop_first();
        lemma_trim_start(rest);
        let k = s.len() - trim_start(s).len();
        assert(rest.skip(rest.len() - trim_start(rest).len()) =~= s.skip(k));
        assert forall|i: int| 0 <= i < k implies is_white(#[trigger] s.take(k)[i]) by {
            if i > 0 {
                assert(rest.take(k - 1)[i - 1] == s[i]);
            }
        }
    } else {
        assert(s.skip(0) =~= s);
    }
}

proof fn lemma_trim_end(s: Seq<char>)
    ensures
        trim_end(s).len() <= s.len(),
        trim_end(s) == s.take(trim_end(s).len() as int),
        all_white(s.skip(trim_end(s).len() as int)),
        trim_end(s).len() > 0 ==> !is_white(trim_end(s).last()),
    decreases s.len(),
{
    if s.len() > 0 && is_white(s.last()) {
        let rest = s.drop_last();
        lemma_trim_end(rest);
        let k = trim_end(s).len() as int;
        assert(rest.take(k) =~= s.take(k));
        assert forall|i: int| 0 <= i < s.len() - k implies is_white(#[trigger] s.skip(k)[i]) by {
            if k + i < rest.len() {
                assert(rest.skip(k)[i] == s[k + i]);
            }
        }
    } else {
        assert(s.take(s.len() as int) =~= s);
    }
}

/// Trimming takes away white space and nothing else, and all of it on either
/// side: what is left stands in the text between two stretches of white space,
/// and neither begins nor ends with any.
pub proof fn trimming_takes_white_space_only(s: Seq<char>) -> (r: (int, int))
    ensures
        0 <= r.0 <= r.1 <= s.len(),
        trim(s) == s.subrange(r.0, r.1),
        all_white(s.take(r.0)),
        all_white(s.skip(r.1)),
        trim(s).len() > 0 ==> !is_white(trim(s)[0]) && !is_white(trim(s).last()),
{
    lemma_trim_start(s);
    let t = trim_start(s);
    lemma_trim_end(t);
    let a = s.len() - t.len();
    let b = a + trim(s).len();
    assert(trim(s) =~= s.subrange(a, b));
    assert forall|i: int| 0 <= i < s.len() - b implies is_white(#[trigger] s.skip(b)[i]) by {
        assert(t.skip(trim(s).len() as int)[i] == s[b + i]);
    }
    (a, b)
}

/// A text that neither begins nor ends with white space is left alone.
pub proof fn trimmed_text_stays(s: Seq<char>)
    requires
        s.len() > 0 ==> !is_white(s[0]) && !is_white(s.last()),
    ensures
        trim(s) == s,
        trim_start(s) == s,
        trim_end(s) == s,
{
}

/// Trimming one character off an end takes nothing but that character, and all
/// of it at that end.
pub proof fn trimming_of_takes_one_character_only(s: Seq<char>, c: char)
    ensures
        trim_end_of(s, c).len() <= s.len(),
        trim_end_of(s, c) == s.take(trim_end_of(s, c).len() as int),
        forall|i: int| trim_end_of(s, c).len() <= i < s.len() ==> #[trigger] s[i] == c,
        trim_end_of(s, c).len() > 0 ==> trim_end_of(s, c).last() != c,
        trim_start_of(s, c).len() <= s.len(),
        trim_start_of(s, c) == s.skip(s.len() - trim_start_of(s, c).len()),
        forall|i: int| 0 <= i < s.len() - trim_start_of(s, c).len() ==> #[trigger] s[i] == c,
        trim_start_of(s, c).len() > 0 ==> trim_start_of(s, c)[0] != c,
    decreases s.len(),
{
    if s.len() > 0 {
        let front = s.drop_last();
        let back = s.drop_first();
        trimming_of_takes_one_character_only(front, c);
        trimming_of_takes_one_character_only(back, c);
        if s.last() == c {
            assert(front.take(trim_end_of(front, c).len() as int) =~= s.take(
                trim_end_of(front, c).len() as int,
            ));
            assert forall|i: int| trim_end_of(s, c).len() <= i < s.len() implies #[trigger] s[i]
                == c by {
                if i < front.len() {
                    assert(front[i] == s[i]);
                }
            }
        }
        if s[0] == c {
            assert(back.skip(back.len() - trim_start_of(back, c).len()) =~= s.skip(
                s.len() - trim_start_of(back, c).len(),
            ));
            assert forall|i: int|
                0 <= i < s.len() - trim_start_of(s, c).len() implies #[trigger] s[i] == c by {
                if i > 0 {
                    assert(back[i - 1] == s[i]);
                }
            }
        }
    }
    assert(s.take(s.len() as int) =~= s);
    assert(s.skip(0) =~= s);
}

/// Lowering turns each of the capitals `A` to `Z` into the letter 32 places on,
/// leaves everything else alone, and leaves no capital.
pub proof fn lowering_changes_capitals_only(s: Seq<char>, i: int)
    requires
        0 <= i < s.len(),
    ensures
        ascii_lower(s).len() == s.len(),
        65 <= s[i] as u32 <= 90 ==> ascii_lower(s)[i] as u32 == s[i] as u32 + 32,
        !(65 <= s[i] as u32 <= 90) ==> ascii_lower(s)[i] == s[i],
        ascii_lower(ascii_lower(s)) == ascii_lower(s),
{
    assert(ascii_lower(ascii_lower(s)) =~= ascii_lower(s));
}

/// Texts are the same up to case exactly if they are as long and at every place
/// hold the same character, or a capital and its small letter.
pub proof fn case_is_ignored(a: Seq<char>, b: Seq<char>)
    ensures
        same_ignoring_case(a, b) == (a.len() == b.len() && forall|i: int|
            #![trigger a[i]]
            #![trigger b[i]]
            0 <= i < a.len() ==> {
                ||| a[i] == b[i]
                ||| 65 <= a[i] as u32 <= 90 && b[i] as u32 == a[i] as u32 + 32
                ||| 65 <= b[i] as u32 <= 90 && a[i] as u32 == b[i] as u32 + 32
            }),
{
    let x = ascii_lower(a);
    let y = ascii_lower(b);
    if x == y {
        assert(a.len() == x.len() && b.len() == y.len());
        assert forall|i: int|
            #![trigger a[i]]
            #![trigger b[i]]
            0 <= i < a.len() implies {
            ||| a[i] == b[i]
            ||| 65 <= a[i] as u32 <= 90 && b[i] as u32 == a[i] as u32 + 32
            ||| 65 <= b[i] as u32 <= 90 && a[i] as u32 == b[i] as u32 + 32
        } by {
            assert(x[i] == y[i]);
        }
    } else if a.len() == b.len() && forall|i: int|
        #![trigger a[i]]
        #![trigger b[i]]
        0 <= i < a.len() ==> {
            ||| a[i] == b[i]
            ||| 65 <= a[i] as u32 <= 90 && b[i] as u32 == a[i] as u32 + 32
            ||| 65 <= b[i] as u32 <= 90 && a[i] as u32 == b[i] as u32 + 32
        } {
        assert forall|i: int| 0 <= i < x.len() implies x[i] == y[i] by {
            let p = a[i];
            let q = b[i];
            assert(lower_char(p) as u32 == lower_char(q) as u32);
        }
        assert(x =~= y);
    }
}

/// Pieces put together again, with `c` between them.
pub open spec fn joined_by(pieces: Seq<Seq<char>>, c: Seq<char>) -> Seq<char>
    decreases pieces.len(),
{
    if pieces.len() == 0 {
        Seq::empty()
    } else if pieces.len() == 1 {
        pieces[0]
    } else {
        pieces[0] + c + joined_by(pieces.drop_first(), c)
    }
}

/// Splitting loses nothing: put together again, the pieces are the text, and
/// none of them holds the character that it was split at.
pub proof fn splitting_loses_nothing(s: Seq<char>, c: char)
    ensures
        split(s, c).len() > 0,
        joined_by(split(s, c), seq![c]) == s,
        forall|k: int, j: int|
            0 <= k < split(s, c).len() && 0 <= j < split(s, c)[k].len() ==> #[trigger] split(
                s,
                c,
            )[k][j] != c,
    decreases s.len(),
{
    lemma_index_of_bound(s, c);
    let i = index_of(s, c) as int;
    if i < s.len() {
        let rest = s.skip(i + 1);
        splitting_loses_nothing(rest, c);
        let all = split(s, c);
        assert(all.drop_first() =~= split(rest, c));
        assert(s =~= s.take(i) + seq![c] + rest);
        assert forall|k: int, j: int|
            0 <= k < all.len() && 0 <= j < all[k].len() implies #[trigger] all[k][j] != c by {
            if k > 0 {
                assert(all[k] == split(rest, c)[k - 1]);
                assert(split(rest, c)[k - 1][j] != c);
            }
        }
    }
}

/// A text without the character is one piece.
pub proof fn a_text_without_the_character_is_one_piece(s: Seq<char>, c: char)
    requires
        !s.contains(c),
    ensures
        split(s, c) == seq![s],
{
    lemma_index_of_bound(s, c);
    if index_of(s, c) < s.len() {
        assert(s[index_of(s, c) as int] == c);
    }
}

/// Texts that are put together around the character are split one after the
/// other.
pub proof fn splitting_goes_piece_by_piece(a: Seq<char>, b: Seq<char>, c: char)
    ensures
        split(a + seq![c] + b, c) == split(a, c) + split(b, c),
    decreases a.len(),
{
    let s = a + seq![c] + b;
    lemma_index_of_bound(a, c);
    let i = index_of(a, c) as int;
    assert(forall|j: int| 0 <= j < a.len() ==> s[j] == a[j]);
    assert(s[a.len() as int] == c);
    lemma_index_of(s, c, i);
    if i < a.len() {
        let rest = a.skip(i + 1);
        assert(s.skip(i + 1) =~= rest + seq![c] + b);
        assert(s.take(i) =~= a.take(i));
        splitting_goes_piece_by_piece(rest, b, c);
        assert(split(s, c) =~= split(a, c) + split(b, c));
    } else {
        assert(s.skip(i + 1) =~= b);
        assert(s.take(i) =~= a);
    }
}

/// A text is split in two around the first of the characters.
pub proof fn splitting_once_is_at_the_first(s: Seq<char>, c: char)
    ensures
        split_once(s, c) is Some == s.contains(c),
        (match split_once(s, c) {
            Some((front, back)) => s == front + seq![c] + back && !front.contains(c),
            None => true,
        }),
{
    lemma_index_of_bound(s, c);
    let i = index_of(s, c) as int;
    if i < s.len() {
        assert(s[i] == c);
        assert(s =~= s.take(i) + seq![c] + s.skip(i + 1));
    }
}

/// The first occurrence of a text is one, and there is none before it; none is
/// found exactly where there is none.
pub proof fn the_first_occurrence_is_first(s: Seq<char>, p: Seq<char>)
    ensures
        first_occurrence(s, p) is Some == occurs(s, p),
        first_occurrence(s, p) is Some ==> occurs_at(s, p, first_occurrence(s, p)->0),
        forall|i: int| #[trigger]
            occurs_at(s, p, i) ==> first_occurrence(s, p) is Some && first_occurrence(s, p)->0 <= i,
    decreases s.len(),
{
    if occurs_at(s, p, 0) {
    } else if s.len() == 0 {
    } else {
        let rest = s.drop_first();
        the_first_occurrence_is_first(rest, p);
        assert forall|i: int| #[trigger] occurs_at(s, p, i) implies occurs_at(rest, p, i - 1) by {
            assert(rest.subrange(i - 1, i - 1 + p.len()) =~= s.subrange(i, i + p.len()));
        }
        if first_occurrence(rest, p) is Some {
            let k = first_occurrence(rest, p)->0;
            assert(s.subrange(k + 1, k + 1 + p.len()) =~= rest.subrange(k, k + p.len()));
            assert(occurs_at(s, p, k + 1));
        }
        if occurs(s, p) {
            let i = choose|i: int| occurs_at(s, p, i);
            assert(occurs_at(rest, p, i - 1));
        }
    }
}

/// Splitting at a text loses nothing.
pub proof fn splitting_by_loses_nothing(s: Seq<char>, p: Seq<char>)
    ensures
        split_by(s, p).len() > 0,
        joined_by(split_by(s, p), p) == s,
        p.len() > 0 && occurs(s, p) ==> split_by(s, p).len() > 1,
    decreases s.len(),
{
    the_first_occurrence_is_first(s, p);
    lemma_first_occurrence(s, p);
    if first_occurrence(s, p) is Some && p.len() > 0 {
        let i = first_occurrence(s, p)->0;
        let rest = s.skip(i + p.len());
        splitting_by_loses_nothing(rest, p);
        assert(split_by(s, p).drop_first() =~= split_by(rest, p));
        assert(s =~= s.take(i) + p + rest) by {
            assert(s.subrange(i, i + p.len()) == p);
            assert forall|k: int| i <= k < i + p.len() implies s[k] == p[k - i] by {
                assert(s.subrange(i, i + p.len())[k - i] == s[k]);
            }
        }
    }
}

/// What stands in a text, wherever it stands, occurs in it.
pub proof fn a_part_occurs(a: Seq<char>, p: Seq<char>, b: Seq<char>)
    ensures
        occurs(a + p + b, p),
        starts_with(p + b, p),
        ends_with(a + p, p),
        strip_prefix(p + b, p) == Some(b),
        strip_suffix(a + p, p) == Some(a),
{
    let s = a + p + b;
    assert(s.subrange(a.len() as int, (a.len() + p.len()) as int) =~= p);
    assert(occurs_at(s, p, a.len() as int));
    assert((p + b).take(p.len() as int) =~= p);
    assert((p + b).skip(p.len() as int) =~= b);
    assert((a + p).skip(a.len() as int) =~= p);
    assert((a + p).take(a.len() as int) =~= a);
}

/// A prefix that is taken off can be put back.
pub proof fn stripping_undoes_joining(s: Seq<char>, p: Seq<char>)
    ensures
        strip_prefix(s, p) is Some ==> s == p + strip_prefix(s, p)->0,
        strip_suffix(s, p) is Some ==> s == strip_suffix(s, p)->0 + p,
{
    if starts_with(s, p) {
        assert(s =~= s.take(p.len() as int) + s.skip(p.len() as int));
    }
    if ends_with(s, p) {
        assert(s =~= s.take(s.len() - p.len()) + s.skip(s.len() - p.len()));
    }
}

/// A number written in decimal is made of digits, has no leading zero, ends in
/// its last digit, and reads back as that number.
pub proof fn decimals_read_back(n: nat)
    ensures
        decimal(n).len() > 0,
        all_digits(decimal(n)),
        decimal(n).last() as u32 == 48 + n % 10,
        n > 0 ==> decimal(n)[0] as u32 != 48,
        digits_value(decimal(n)) == n,
    decreases n,
{
    if n < 10 {
        assert(decimal(n).drop_last() =~= Seq::empty());
        assert(digits_value(decimal(n).drop_last()) == 0);
        assert(digit_value(decimal(n).last()) == n);
    } else {
        decimals_read_back(n / 10);
        assert(decimal(n).drop_last() =~= decimal(n / 10));
        assert(digits_value(decimal(n)) == 10 * digits_value(decimal(n / 10)) + digit_value(
            decimal(n).last(),
        ));
        assert(digit_value(decimal(n).last()) == n % 10);
        assert forall|i: int| 0 <= i < decimal(n).len() implies is_digit(
            #[trigger] decimal(n)[i],
        ) by {
            if i < decimal(n / 10).len() {
                assert(is_digit(decimal(n / 10)[i]));
            }
        }
    }
}

/// What is written as a number reads back, in every notation, as far as it is
/// in range; and what is out of range does not.
pub proof fn numbers_read_back(n: int, min: int, max: int)
    requires
        min <= 0 <= max,
    ensures
        n >= 0 ==> natural(decimal(n as nat), max) == (if n <= max {
            Some(n)
        } else {
            None
        }),
        n >= 0 ==> unsigned(decimal(n as nat), max) == natural(decimal(n as nat), max),
        n >= 0 ==> unsigned(seq!['+'] + decimal(n as nat), max) == natural(decimal(n as nat), max),
        signed(signed_decimal(n), min, max) == (if min <= n <= max {
            Some(n)
        } else {
            None
        }),
{
    if n >= 0 {
        let d = decimal(n as nat);
        decimals_read_back(n as nat);
        assert(is_digit(d[0]));
        assert((seq!['+'] + d).skip(1) =~= d);
    } else {
        let d = decimal((-n) as nat);
        decimals_read_back((-n) as nat);
        assert((seq!['-'] + d).skip(1) =~= d);
    }
}

/// What is not made of digits is no number.
pub proof fn only_digits_are_a_number(s: Seq<char>, i: int, min: int, max: int)
    requires
        0 <= i < s.len(),
        !is_digit(s[i]),
        i > 0 || (s[0] != '+' && s[0] != '-') || s.len() == 1,
    ensures
        natural(s, max) is None,
        unsigned(s, max) is None,
        signed(s, min, max) is None,
{
    if i > 0 {
        assert(s.skip(1)[i - 1] == s[i]);
        assert(!all_digits(s.skip(1)));
    }
}

/// A text comes before another exactly if they agree up to some place, and
/// there the first has ended or has the smaller character.
pub proof fn the_order_is_that_of_a_dictionary(a: Seq<char>, b: Seq<char>, k: int)
    requires
        0 <= k <= a.len(),
        k <= b.len(),
        forall|i: int| 0 <= i < k ==> a[i] == b[i],
        k < a.len() && k < b.len() ==> a[k] != b[k],
    ensures
        text_before(a, b) == (k < b.len() && (k == a.len() || a[k] < b[k])),
    decreases a.len(),
{
    if k > 0 {
        the_order_is_that_of_a_dictionary(a.drop_first(), b.drop_first(), k - 1);
    }
}

} // verus!
