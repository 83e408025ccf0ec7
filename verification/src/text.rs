//! Text primitives: every string operation the rest of the crate relies on,
//! stated over the sequence of characters a string holds.

use vstd::prelude::*;
use vstd::slice::slice_subrange;

verus! {

/// Trusted: `String::push` appends one character to the end of the string.
pub assume_specification[ String::push ](s: &mut String, c: char)
    ensures
        final(s)@ == old(s)@.push(c),
;

// ---------------------------------------------------------------------------
// Views of containers of strings
// ---------------------------------------------------------------------------

/// The character sequences of a sequence of strings.
pub open spec fn texts(v: Seq<String>) -> Seq<Seq<char>> {
    Seq::new(v.len(), |i: int| v[i]@)
}

/// The character sequence of an optional string.
pub open spec fn opt_text(o: Option<String>) -> Option<Seq<char>> {
    match o {
        Some(s) => Some(s@),
        None => None,
    }
}

/// The character sequence of an optional string slice.
pub open spec fn opt_str(o: Option<&str>) -> Option<Seq<char>> {
    match o {
        Some(s) => Some(s@),
        None => None,
    }
}

/// The character sequences of a sequence of pairs of strings.
pub open spec fn pairs(v: Seq<(String, String)>) -> Seq<(Seq<char>, Seq<char>)> {
    Seq::new(v.len(), |i: int| (v[i].0@, v[i].1@))
}

pub proof fn lemma_texts_push(v: Seq<String>, s: String)
    ensures
        texts(v.push(s)) == texts(v).push(s@),
{
    assert(texts(v.push(s)) =~= texts(v).push(s@));
}

// ---------------------------------------------------------------------------
// Conversion
// ---------------------------------------------------------------------------

/// The text that `String::from_utf8_lossy` makes of bytes.
pub uninterp spec fn lossy(bytes: Seq<u8>) -> Seq<char>;

/// Trusted: `String::from_utf8_lossy` turns bytes into text. Bytes that are
/// the UTF-8 form of a text give that text; what replaces other bytes is left
/// unsaid.
#[verifier::external_body]
pub(crate) fn lossy_text(bytes: &[u8]) -> (r: String)
    ensures
        r@ == lossy(bytes@),
        vstd::utf8::valid_utf8(bytes@) ==> r@ == vstd::utf8::decode_utf8(bytes@),
{
    String::from_utf8_lossy(bytes).into_owned()
}

/// The characters of `s`, in order.
pub fn chars_of(s: &str) -> (chars: Vec<char>)
    ensures
        chars@ == s@,
{
    let mut chars: Vec<char> = Vec::new();
    for c in it: s.chars()
        invariant
            chars@ == s@.take(it.index()),
            it.seq() == s@,
    {
        chars.push(c);
        proof {
            assert(s@.take(it.index() + 1) == s@.take(it.index()).push(c));
        }
    }
    proof {
        assert(s@.take(s@.len() as int) == s@);
    }
    chars
}

/// The string made of `chars`.
pub fn string_of(chars: &[char]) -> (s: String)
    ensures
        s@ == chars@,
{
    let mut s = String::new();
    for i in 0..chars.len()
        invariant
            s@ == chars@.take(i as int),
    {
        s.push(chars[i]);
        proof {
            assert(chars@.take(i + 1) == chars@.take(i as int).push(chars@[i as int]));
        }
    }
    proof {
        assert(chars@.take(chars@.len() as int) == chars@);
    }
    s
}

/// The owned copies of string slices.
pub fn owned(s: &str) -> (r: String)
    ensures
        r@ == s@,
{
    s.to_owned()
}

/// The owned copy of an optional slice.
pub fn owned_opt(s: Option<&str>) -> (r: Option<String>)
    ensures
        opt_text(r) == opt_str(s),
{
    match s {
        Some(s) => Some(s.to_owned()),
        None => None,
    }
}

/// The borrowed form of an optional string.
pub fn borrowed_opt(s: &Option<String>) -> (r: Option<&str>)
    ensures
        opt_str(r) == opt_text(*s),
{
    match s {
        Some(s) => Some(s.as_str()),
        None => None,
    }
}

/// A copy of an optional string.
pub fn clone_opt(s: &Option<String>) -> (r: Option<String>)
    ensures
        opt_text(r) == opt_text(*s),
{
    match s {
        Some(s) => Some(s.as_str().to_owned()),
        None => None,
    }
}

/// A copy of a list of strings.
pub fn clone_texts(v: &Vec<String>) -> (r: Vec<String>)
    ensures
        texts(r@) == texts(v@),
{
    let mut r: Vec<String> = Vec::new();
    for i in 0..v.len()
        invariant
            texts(r@) == texts(v@).take(i as int),
    {
        let copy = v[i].as_str().to_owned();
        proof {
            lemma_texts_push(r@, copy);
            assert(texts(v@).take(i + 1) == texts(v@).take(i as int).push(v@[i as int]@));
        }
        r.push(copy);
    }
    proof {
        assert(texts(v@).take(v@.len() as int) == texts(v@));
    }
    r
}

// ---------------------------------------------------------------------------
// Equality
// ---------------------------------------------------------------------------

/// Whether two character runs are the same.
pub fn chars_eq(a: &[char], b: &[char]) -> (r: bool)
    ensures
        r == (a@ == b@),
{
    if a.len() != b.len() {
        return false;
    }
    for i in 0..a.len()
        invariant
            a@.len() == b@.len(),
            forall|j: int| 0 <= j < i ==> a@[j] == b@[j],
    {
        if a[i] != b[i] {
            return false;
        }
    }
    proof {
        assert(a@ =~= b@);
    }
    true
}

/// Whether two strings hold the same characters.
pub fn str_eq(a: &str, b: &str) -> (r: bool)
    ensures
        r == (a@ == b@),
{
    chars_eq(chars_of(a).as_slice(), chars_of(b).as_slice())
}

/// Whether `s` is one of `items`.
pub fn is_one_of(s: &str, items: &[&'static str]) -> (r: bool)
    ensures
        r == exists|i: int| 0 <= i < items@.len() && items@[i]@ == s@,
{
    for i in 0..items.len()
        invariant
            forall|j: int| 0 <= j < i ==> items@[j]@ != s@,
    {
        if str_eq(items[i], s) {
            return true;
        }
    }
    false
}

/// Whether `s` occurs in the list of strings.
pub fn list_contains(v: &Vec<String>, s: &str) -> (r: bool)
    ensures
        r == texts(v@).contains(s@),
{
    for i in 0..v.len()
        invariant
            forall|j: int| 0 <= j < i ==> texts(v@)[j] != s@,
    {
        if str_eq(v[i].as_str(), s) {
            proof {
                assert(texts(v@)[i as int] == s@);
            }
            return true;
        }
    }
    false
}

// ---------------------------------------------------------------------------
// Concatenation
// ---------------------------------------------------------------------------

pub fn cat2(a: &str, b: &str) -> (r: String)
    ensures
        r@ == a@ + b@,
{
    let mut r = a.to_owned();
    r.append(b);
    r
}

pub fn cat3(a: &str, b: &str, c: &str) -> (r: String)
    ensures
        r@ == a@ + b@ + c@,
{
    let mut r = cat2(a, b);
    r.append(c);
    r
}

pub fn cat4(a: &str, b: &str, c: &str, d: &str) -> (r: String)
    ensures
        r@ == a@ + b@ + c@ + d@,
{
    let mut r = cat3(a, b, c);
    r.append(d);
    r
}

pub fn cat5(a: &str, b: &str, c: &str, d: &str, e: &str) -> (r: String)
    ensures
        r@ == a@ + b@ + c@ + d@ + e@,
{
    let mut r = cat4(a, b, c, d);
    r.append(e);
    r
}

pub fn cat6(a: &str, b: &str, c: &str, d: &str, e: &str, f: &str) -> (r: String)
    ensures
        r@ == a@ + b@ + c@ + d@ + e@ + f@,
{
    let mut r = cat5(a, b, c, d, e);
    r.append(f);
    r
}

pub fn cat7(a: &str, b: &str, c: &str, d: &str, e: &str, f: &str, g: &str) -> (r: String)
    ensures
        r@ == a@ + b@ + c@ + d@ + e@ + f@ + g@,
{
    let mut r = cat6(a, b, c, d, e, f);
    r.append(g);
    r
}

/// `parts` with `sep` between each two of them.
pub open spec fn join(parts: Seq<Seq<char>>, sep: Seq<char>) -> Seq<char>
    decreases parts.len(),
{
    if parts.len() == 0 {
        Seq::empty()
    } else if parts.len() == 1 {
        parts[0]
    } else {
        join(parts.drop_last(), sep) + sep + parts.last()
    }
}

/// Joining puts the first part, a separator, and the rest joined.
pub proof fn lemma_join_first(first: Seq<char>, rest: Seq<Seq<char>>, sep: Seq<char>)
    requires
        rest.len() > 0,
    ensures
        join(seq![first] + rest, sep) == first + sep + join(rest, sep),
    decreases rest.len(),
{
    let all = seq![first] + rest;
    assert(all.last() == rest.last());
    if rest.len() == 1 {
        assert(all.drop_last() =~= seq![first]);
        assert(join(seq![first], sep) == first);
        assert(join(all, sep) =~= first + sep + join(rest, sep));
    } else {
        lemma_join_first(first, rest.drop_last(), sep);
        assert(all.drop_last() =~= seq![first] + rest.drop_last());
        assert(join(all, sep) =~= first + sep + join(rest, sep));
    }
}

/// Joins strings with a separator between each two of them.
pub fn join_texts(parts: &Vec<String>, sep: &str) -> (r: String)
    ensures
        r@ == join(texts(parts@), sep@),
{
    let mut r = String::new();
    for i in 0..parts.len()
        invariant
            r@ == join(texts(parts@).take(i as int), sep@),
    {
        proof {
            let t = texts(parts@).take(i + 1);
            assert(t.drop_last() == texts(parts@).take(i as int));
            assert(t.last() == parts@[i as int]@);
        }
        if i > 0 {
            r.append(sep);
        }
        r.append(parts[i].as_str());
        proof {
            if i == 0 {
                assert(r@ =~= parts@[0]@);
            }
        }
    }
    proof {
        assert(texts(parts@).take(parts@.len() as int) == texts(parts@));
    }
    r
}

// ---------------------------------------------------------------------------
// Character classes
// ---------------------------------------------------------------------------

/// The characters with the Unicode `White_Space` property.
pub open spec fn is_white_space(c: char) -> bool {
    let n = c as u32;
    ||| 0x09 <= n <= 0x0d
    ||| n == 0x20
    ||| n == 0x85
    ||| n == 0xa0
    ||| n == 0x1680
    ||| 0x2000 <= n <= 0x200a
    ||| n == 0x2028
    ||| n == 0x2029
    ||| n == 0x202f
    ||| n == 0x205f
    ||| n == 0x3000
}

/// Whether `c` has the Unicode `White_Space` property.
pub fn white_space(c: char) -> (r: bool)
    ensures
        r == is_white_space(c),
{
    let n: u32 = c as u32;
    (0x09 <= n && n <= 0x0d) || n == 0x20 || n == 0x85 || n == 0xa0 || n == 0x1680 || (0x2000 <= n
        && n <= 0x200a) || n == 0x2028 || n == 0x2029 || n == 0x202f || n == 0x205f || n == 0x3000
}

/// Whether `c` is one of `0` to `9`.
pub open spec fn is_digit(c: char) -> bool {
    '0' <= c <= '9'
}

pub fn digit(c: char) -> (r: bool)
    ensures
        r == is_digit(c),
{
    '0' <= c && c <= '9'
}

/// `A` to `Z` mapped to `a` to `z`, every other character to itself.
pub open spec fn ascii_lower(c: char) -> char {
    if 'A' <= c <= 'Z' {
        ((c as u8 + 32) as u8) as char
    } else {
        c
    }
}

pub fn lower_char(c: char) -> (r: char)
    ensures
        r == ascii_lower(c),
{
    if 'A' <= c && c <= 'Z' {
        ((c as u8) + 32) as char
    } else {
        c
    }
}

/// Every character mapped by [`ascii_lower`].
pub open spec fn lowered(s: Seq<char>) -> Seq<char> {
    Seq::new(s.len(), |i: int| ascii_lower(s[i]))
}

/// The ASCII lower-case form of `s`.
pub fn to_ascii_lower(s: &str) -> (r: String)
    ensures
        r@ == lowered(s@),
{
    let chars = chars_of(s);
    let mut r = String::new();
    for i in 0..chars.len()
        invariant
            chars@ == s@,
            r@ == lowered(s@).take(i as int),
    {
        r.push(lower_char(chars[i]));
        proof {
            assert(lowered(s@).take(i + 1) == lowered(s@).take(i as int).push(
                ascii_lower(s@[i as int]),
            ));
        }
    }
    proof {
        assert(lowered(s@).take(s@.len() as int) == lowered(s@));
    }
    r
}

// ---------------------------------------------------------------------------
// Trimming
// ---------------------------------------------------------------------------

/// `s` without its leading white space.
pub open spec fn trim_start(s: Seq<char>) -> Seq<char>
    decreases s.len(),
{
    if s.len() > 0 && is_white_space(s[0]) {
        trim_start(s.drop_first())
    } else {
        s
    }
}

/// `s` without its trailing white space.
pub open spec fn trim_end(s: Seq<char>) -> Seq<char>
    decreases s.len(),
{
    if s.len() > 0 && is_white_space(s.last()) {
        trim_end(s.drop_last())
    } else {
        s
    }
}

/// `s` without its leading and trailing white space.
pub open spec fn trim(s: Seq<char>) -> Seq<char> {
    trim_end(trim_start(s))
}

/// Whether `s` has a character, and no white space at either end.
pub open spec fn is_trimmed(s: Seq<char>) -> bool {
    s.len() > 0 && !is_white_space(s[0]) && !is_white_space(s.last())
}

/// What is left at the end is no white space, and what is left is the start.
pub proof fn lemma_trim_end(s: Seq<char>)
    ensures
        trim_end(s).len() <= s.len(),
        trim_end(s) == s.take(trim_end(s).len() as int),
        trim_end(s).len() > 0 ==> !is_white_space(trim_end(s).last()),
    decreases s.len(),
{
    if s.len() > 0 && is_white_space(s.last()) {
        lemma_trim_end(s.drop_last());
        assert(trim_end(s) =~= s.take(trim_end(s).len() as int));
    } else {
        assert(s =~= s.take(s.len() as int));
    }
}

proof fn lemma_trim_start(s: Seq<char>)
    ensures
        trim_start(s).len() > 0 ==> !is_white_space(trim_start(s)[0]),
        s.len() > 0 && !is_white_space(s.last()) ==> trim_start(s).len() > 0
            && trim_start(s).last() == s.last(),
    decreases s.len(),
{
    if s.len() > 0 && is_white_space(s[0]) {
        lemma_trim_start(s.drop_first());
    }
}

/// What is left of a text has no white space at either end, and something is
/// left of one that ends in something else.
pub proof fn lemma_trim(s: Seq<char>)
    ensures
        trim(s).len() > 0 ==> is_trimmed(trim(s)),
        s.len() > 0 && !is_white_space(s.last()) ==> trim(s).len() > 0,
{
    lemma_trim_start(s);
    lemma_trim_end(trim_start(s));
}

/// `s` without the run of `c` at its start.
pub open spec fn trim_start_char(s: Seq<char>, c: char) -> Seq<char>
    decreases s.len(),
{
    if s.len() > 0 && s[0] == c {
        trim_start_char(s.drop_first(), c)
    } else {
        s
    }
}

/// `s` without the run of `c` at its end.
pub open spec fn trim_end_char(s: Seq<char>, c: char) -> Seq<char>
    decreases s.len(),
{
    if s.len() > 0 && s.last() == c {
        trim_end_char(s.drop_last(), c)
    } else {
        s
    }
}

fn white_prefix(chars: &Vec<char>) -> (lo: usize)
    ensures
        lo <= chars@.len(),
        trim_start(chars@) == chars@.skip(lo as int),
{
    let mut lo: usize = 0;
    proof {
        assert(chars@.skip(0) == chars@);
    }
    while lo < chars.len() && white_space(chars[lo])
        invariant
            lo <= chars@.len(),
            trim_start(chars@) == trim_start(chars@.skip(lo as int)),
        decreases chars@.len() - lo,
    {
        proof {
            assert(chars@.skip(lo as int).drop_first() == chars@.skip(lo + 1));
        }
        lo = lo + 1;
    }
    lo
}

fn white_suffix(chars: &Vec<char>, lo: usize) -> (hi: usize)
    requires
        lo <= chars@.len(),
    ensures
        lo <= hi <= chars@.len(),
        trim_end(chars@.skip(lo as int)) == chars@.subrange(lo as int, hi as int),
{
    let mut hi: usize = chars.len();
    proof {
        assert(chars@.subrange(lo as int, hi as int) == chars@.skip(lo as int));
    }
    while hi > lo && white_space(chars[hi - 1])
        invariant
            lo <= hi <= chars@.len(),
            trim_end(chars@.skip(lo as int)) == trim_end(chars@.subrange(lo as int, hi as int)),
        decreases hi,
    {
        proof {
            assert(chars@.subrange(lo as int, hi as int).drop_last() == chars@.subrange(
                lo as int,
                hi - 1,
            ));
        }
        hi = hi - 1;
    }
    hi
}

/// `s` without its leading and trailing white space.
pub fn trimmed(s: &str) -> (r: &str)
    ensures
        r@ == trim(s@),
{
    let chars = chars_of(s);
    let lo: usize = white_prefix(&chars);
    let hi: usize = white_suffix(&chars, lo);
    s.substring_char(lo, hi)
}

/// `s` without its leading white space.
pub fn trimmed_start(s: &str) -> (r: &str)
    ensures
        r@ == trim_start(s@),
{
    let chars = chars_of(s);
    let lo: usize = white_prefix(&chars);
    let n: usize = chars.len();
    proof {
        assert(s@.skip(lo as int) == s@.subrange(lo as int, n as int));
    }
    s.substring_char(lo, n)
}

/// `s` without its trailing white space.
pub fn trimmed_end(s: &str) -> (r: &str)
    ensures
        r@ == trim_end(s@),
{
    let chars = chars_of(s);
    let hi: usize = white_suffix(&chars, 0);
    proof {
        assert(s@.skip(0) == s@);
    }
    s.substring_char(0, hi)
}

/// `s` without the run of `c` at its start.
pub fn trimmed_start_char(s: &str, c: char) -> (r: &str)
    ensures
        r@ == trim_start_char(s@, c),
{
    let chars = chars_of(s);
    let n: usize = chars.len();
    let mut lo: usize = 0;
    proof {
        assert(s@.skip(0) == s@);
    }
    while lo < n && chars[lo] == c
        invariant
            chars@ == s@,
            n == chars@.len(),
            lo <= n,
            trim_start_char(s@, c) == trim_start_char(s@.skip(lo as int), c),
        decreases n - lo,
    {
        proof {
            assert(s@.skip(lo as int).drop_first() == s@.skip(lo + 1));
        }
        lo = lo + 1;
    }
    proof {
        assert(s@.skip(lo as int) == s@.subrange(lo as int, n as int));
    }
    s.substring_char(lo, n)
}

/// `s` without the run of `c` at its end.
pub fn trimmed_end_char(s: &str, c: char) -> (r: &str)
    ensures
        r@ == trim_end_char(s@, c),
{
    let chars = chars_of(s);
    let mut hi: usize = chars.len();
    proof {
        assert(s@.subrange(0, hi as int) == s@);
    }
    while hi > 0 && chars[hi - 1] == c
        invariant
            chars@ == s@,
            hi <= chars@.len(),
            trim_end_char(s@, c) == trim_end_char(s@.subrange(0, hi as int), c),
        decreases hi,
    {
        proof {
            assert(s@.subrange(0, hi as int).drop_last() == s@.subrange(0, hi - 1));
        }
        hi = hi - 1;
    }
    s.substring_char(0, hi)
}

// ---------------------------------------------------------------------------
// Prefixes and suffixes
// ---------------------------------------------------------------------------

/// Whether `s` begins with `p`.
pub open spec fn starts_with(s: Seq<char>, p: Seq<char>) -> bool {
    p.len() <= s.len() && s.take(p.len() as int) == p
}

/// Whether `s` ends with `p`.
pub open spec fn ends_with(s: Seq<char>, p: Seq<char>) -> bool {
    p.len() <= s.len() && s.skip(s.len() - p.len()) == p
}

/// What follows `p` in `s`, where `s` begins with `p`.
pub open spec fn strip_prefix(s: Seq<char>, p: Seq<char>) -> Option<Seq<char>> {
    if starts_with(s, p) {
        Some(s.skip(p.len() as int))
    } else {
        None
    }
}

/// What precedes `p` in `s`, where `s` ends with `p`.
pub open spec fn strip_suffix(s: Seq<char>, p: Seq<char>) -> Option<Seq<char>> {
    if ends_with(s, p) {
        Some(s.take(s.len() - p.len()))
    } else {
        None
    }
}

/// What follows `p` in `s`, where `s` begins with `p`.
pub fn stripped_prefix<'a>(s: &'a str, p: &str) -> (r: Option<&'a str>)
    ensures
        opt_str(r) == strip_prefix(s@, p@),
{
    let a = chars_of(s);
    let b = chars_of(p);
    if b.len() > a.len() {
        return None;
    }
    proof {
        assert(a@.subrange(0, b@.len() as int) == s@.take(p@.len() as int));
        assert(s@.subrange(b@.len() as int, a@.len() as int) == s@.skip(p@.len() as int));
    }
    if chars_eq(slice_subrange(a.as_slice(), 0, b.len()), b.as_slice()) {
        Some(s.substring_char(b.len(), a.len()))
    } else {
        None
    }
}

/// What precedes `p` in `s`, where `s` ends with `p`.
pub fn stripped_suffix<'a>(s: &'a str, p: &str) -> (r: Option<&'a str>)
    ensures
        opt_str(r) == strip_suffix(s@, p@),
{
    let a = chars_of(s);
    let b = chars_of(p);
    if b.len() > a.len() {
        return None;
    }
    let cut: usize = a.len() - b.len();
    proof {
        assert(a@.subrange(cut as int, a@.len() as int) == s@.skip(s@.len() - p@.len()));
        assert(s@.subrange(0, cut as int) == s@.take(cut as int));
    }
    if chars_eq(slice_subrange(a.as_slice(), cut, a.len()), b.as_slice()) {
        Some(s.substring_char(0, cut))
    } else {
        None
    }
}

/// Whether `s` begins with `p`.
pub fn begins_with(s: &str, p: &str) -> (r: bool)
    ensures
        r == starts_with(s@, p@),
{
    stripped_prefix(s, p).is_some()
}

/// Whether `s` ends with `p`.
pub fn finishes_with(s: &str, p: &str) -> (r: bool)
    ensures
        r == ends_with(s@, p@),
{
    stripped_suffix(s, p).is_some()
}

// ---------------------------------------------------------------------------
// Searching
// ---------------------------------------------------------------------------

/// Whether `p` occurs in `s` at position `i`.
pub open spec fn occurs_at(s: Seq<char>, p: Seq<char>, i: int) -> bool {
    0 <= i && i + p.len() <= s.len() && s.subrange(i, i + p.len()) == p
}

/// Whether `p` occurs anywhere in `s`.
pub open spec fn contains(s: Seq<char>, p: Seq<char>) -> bool {
    exists|i: int| occurs_at(s, p, i)
}

/// The first position from `from` on where `p` occurs in `s`.
pub open spec fn first_occurrence(s: Seq<char>, p: Seq<char>, from: int) -> Option<int>
    decreases s.len() + 1 - from,
{
    if from < 0 || from > s.len() {
        None
    } else if occurs_at(s, p, from) {
        Some(from)
    } else {
        first_occurrence(s, p, from + 1)
    }
}

proof fn lemma_first_occurrence(s: Seq<char>, p: Seq<char>, from: int, i: int)
    requires
        0 <= from <= i,
        forall|j: int| from <= j < i ==> !occurs_at(s, p, j),
    ensures
        occurs_at(s, p, i) ==> first_occurrence(s, p, from) == Some(i),
        i > s.len() ==> first_occurrence(s, p, from) is None,
    decreases i - from,
{
    if from < i && from <= s.len() {
        lemma_first_occurrence(s, p, from + 1, i);
    }
}

/// The position of the first occurrence of `p` in `s`.
pub fn find(s: &str, p: &str) -> (r: Option<usize>)
    ensures
        match first_occurrence(s@, p@, 0) {
            Some(i) => r is Some && r->0 == i,
            None => r is None,
        },
        match r {
            Some(i) => occurs_at(s@, p@, i as int) && forall|j: int|
                0 <= j < i ==> !occurs_at(s@, p@, j),
            None => !contains(s@, p@),
        },
{
    let a = chars_of(s);
    let b = chars_of(p);
    if b.len() > a.len() {
        proof {
            lemma_first_occurrence(s@, p@, 0, s@.len() as int + 1);
        }
        return None;
    }
    let total: usize = a.len();
    let last: usize = total - b.len();
    let mut i: usize = 0;
    while i <= last
        invariant
            a@ == s@,
            b@ == p@,
            total == a@.len(),
            last + b@.len() == total,
            i <= last + 1,
            forall|j: int| 0 <= j < i ==> !occurs_at(s@, p@, j),
        decreases last + 1 - i,
    {
        if chars_eq(slice_subrange(a.as_slice(), i, i + b.len()), b.as_slice()) {
            proof {
                lemma_first_occurrence(s@, p@, 0, i as int);
            }
            return Some(i);
        }
        if i == last {
            proof {
                assert forall|j: int| !occurs_at(s@, p@, j) by {
                    if 0 <= j < i {
                    }
                }
                lemma_first_occurrence(s@, p@, 0, s@.len() as int + 1);
            }
            return None;
        }
        i = i + 1;
    }
    proof {
        assert forall|j: int| !occurs_at(s@, p@, j) by {
            if 0 <= j < i {
            }
        }
        lemma_first_occurrence(s@, p@, 0, s@.len() as int + 1);
    }
    None
}

/// Whether `p` occurs in `s`.
pub fn has(s: &str, p: &str) -> (r: bool)
    ensures
        r == contains(s@, p@),
{
    find(s, p).is_some()
}

/// The position of the first `c` in `s`, or the length of `s` without one.
pub open spec fn first_char(s: Seq<char>, c: char) -> int
    decreases s.len(),
{
    if s.len() == 0 || s[0] == c {
        0
    } else {
        1 + first_char(s.drop_first(), c)
    }
}

pub proof fn lemma_first_char(s: Seq<char>, c: char)
    ensures
        0 <= first_char(s, c) <= s.len(),
        first_char(s, c) < s.len() ==> s[first_char(s, c)] == c,
        forall|j: int| 0 <= j < first_char(s, c) ==> s[j] != c,
    decreases s.len(),
{
    if s.len() > 0 && s[0] != c {
        let t = s.drop_first();
        lemma_first_char(t, c);
        assert forall|j: int| 0 <= j < first_char(s, c) implies s[j] != c by {
            if j > 0 {
                assert(t[j - 1] == s[j]);
            }
        }
    }
}

/// A position is the first `c` where it holds `c` and no earlier one does.
pub proof fn lemma_first_char_is(s: Seq<char>, c: char, i: int)
    requires
        0 <= i <= s.len(),
        i < s.len() ==> s[i] == c,
        forall|j: int| 0 <= j < i ==> s[j] != c,
    ensures
        first_char(s, c) == i,
{
    lemma_first_char(s, c);
}

/// The position of the first `c` at or after `from`, or the length.
pub fn find_char_from(chars: &Vec<char>, c: char, from: usize) -> (r: usize)
    requires
        from <= chars@.len(),
    ensures
        from <= r <= chars@.len(),
        r - from == first_char(chars@.skip(from as int), c),
{
    let mut i: usize = from;
    while i < chars.len() && chars[i] != c
        invariant
            from <= i <= chars@.len(),
            forall|j: int| from <= j < i ==> chars@[j] != c,
        decreases chars@.len() - i,
    {
        i = i + 1;
    }
    proof {
        lemma_first_char_is(chars@.skip(from as int), c, i - from);
    }
    i
}

/// The position of the last `c` in `s`, if it holds one.
pub fn rfind_char(s: &str, c: char) -> (r: Option<usize>)
    ensures
        match r {
            Some(i) => i < s@.len() && s@[i as int] == c && forall|j: int|
                i < j < s@.len() ==> s@[j] != c,
            None => !s@.contains(c),
        },
{
    let chars = chars_of(s);
    let mut i: usize = chars.len();
    while i > 0
        invariant
            chars@ == s@,
            i <= chars@.len(),
            forall|j: int| i <= j < s@.len() ==> s@[j] != c,
        decreases i,
    {
        if chars[i - 1] == c {
            return Some(i - 1);
        }
        i = i - 1;
    }
    None
}

// ---------------------------------------------------------------------------
// Splitting
// ---------------------------------------------------------------------------

/// The pieces of `s` between occurrences of `c`.
pub open spec fn split(s: Seq<char>, c: char) -> Seq<Seq<char>>
    decreases s.len(),
    via split_decreases
{
    let i = first_char(s, c);
    if i < s.len() {
        seq![s.take(i)] + split(s.skip(i + 1), c)
    } else {
        seq![s]
    }
}

#[via_fn]
proof fn split_decreases(s: Seq<char>, c: char) {
    lemma_first_char(s, c);
}

/// Splitting finds at least one piece, and joining the pieces gives the text
/// back.
pub proof fn law_join_undoes_split(s: Seq<char>, c: char)
    ensures
        split(s, c).len() > 0,
        join(split(s, c), seq![c]) == s,
    decreases s.len(),
{
    lemma_first_char(s, c);
    let i = first_char(s, c);
    if i < s.len() {
        let rest = s.skip(i + 1);
        law_join_undoes_split(rest, c);
        lemma_join_first(s.take(i), split(rest, c), seq![c]);
        assert(s =~= s.take(i) + seq![c] + rest);
    } else {
        assert(join(seq![s], seq![c]) == s);
    }
}

/// A separator at the end of a text is followed by one empty piece, and a
/// last piece is empty only there or where the whole text is.
pub proof fn lemma_split_end(s: Seq<char>, c: char)
    ensures
        split(s, c).len() > 0,
        split(s, c).last().len() == 0 <==> s.len() == 0 || s.last() == c,
        s.len() > 0 && s.last() == c ==> split(s, c) == split(s.drop_last(), c).push(Seq::empty()),
    decreases s.len(),
{
    lemma_first_char(s, c);
    let i = first_char(s, c);
    if i < s.len() {
        let rest = s.skip(i + 1);
        lemma_split_end(rest, c);
        assert(split(s, c).last() == split(rest, c).last());
        if s.last() == c {
            let front = s.drop_last();
            if rest.len() == 0 {
                assert(first_char(front, c) == front.len()) by {
                    lemma_first_char(front, c);
                    if first_char(front, c) < front.len() {
                        assert(s[first_char(front, c)] == c);
                    }
                }
                assert(s.take(i) =~= front);
                assert(rest =~= Seq::empty());
                assert(split(rest, c) =~= seq![Seq::<char>::empty()]);
                assert(split(s, c) =~= split(front, c).push(Seq::empty()));
            } else {
                assert(front[i] == c);
                lemma_first_char_is(front, c, i);
                assert(front.take(i) =~= s.take(i));
                assert(front.skip(i + 1) =~= rest.drop_last());
                assert(split(s, c) =~= split(front, c).push(Seq::empty()));
            }
        }
    } else {
        assert(s.len() > 0 ==> s[s.len() - 1] != c);
    }
}

/// `line` without one carriage return at its end.
pub open spec fn strip_cr(line: Seq<char>) -> Seq<char> {
    if line.len() > 0 && line.last() == '\r' {
        line.drop_last()
    } else {
        line
    }
}

/// The lines of `s`: each ends at a line feed, or a carriage return and a
/// line feed; text after the last line feed is a line where it is not empty.
pub open spec fn lines(s: Seq<char>) -> Seq<Seq<char>>
    decreases s.len(),
    via lines_decreases
{
    let i = first_char(s, '\n');
    if i < s.len() {
        seq![strip_cr(s.take(i))] + lines(s.skip(i + 1))
    } else if s.len() > 0 {
        seq![s]
    } else {
        Seq::empty()
    }
}

#[via_fn]
proof fn lines_decreases(s: Seq<char>) {
    lemma_first_char(s, '\n');
}

/// The pieces of `s` between occurrences of `c`.
pub fn split_on(s: &str, c: char) -> (r: Vec<String>)
    ensures
        texts(r@) == split(s@, c),
{
    let chars = chars_of(s);
    let mut r: Vec<String> = Vec::new();
    let mut from: usize = 0;
    proof {
        assert(s@.skip(0) == s@);
        assert(texts(r@) + split(s@, c) == split(s@, c));
    }
    loop
        invariant
            chars@ == s@,
            from <= chars@.len(),
            texts(r@) + split(s@.skip(from as int), c) == split(s@, c),
        decreases chars@.len() - from,
    {
        let i: usize = find_char_from(&chars, c, from);
        let ghost rest = s@.skip(from as int);
        let piece = s.substring_char(from, i).to_owned();
        proof {
            lemma_first_char(rest, c);
            assert(piece@ == rest.take(i - from));
            lemma_texts_push(r@, piece);
        }
        let ghost before = texts(r@);
        r.push(piece);
        if i < chars.len() {
            proof {
                assert(rest.skip(i - from + 1) == s@.skip(i + 1));
                assert(before + (seq![rest.take(i - from)] + split(s@.skip(i + 1), c)) == before.push(
                    rest.take(i - from),
                ) + split(s@.skip(i + 1), c));
            }
            from = i + 1;
        } else {
            proof {
                assert(rest.take(i - from) == rest);
                assert(before + seq![rest] == before.push(rest));
            }
            return r;
        }
    }
}

/// The lines of `s`.
pub fn lines_of(s: &str) -> (r: Vec<String>)
    ensures
        texts(r@) == lines(s@),
{
    let chars = chars_of(s);
    let mut r: Vec<String> = Vec::new();
    let mut from: usize = 0;
    proof {
        assert(s@.skip(0) == s@);
        assert(texts(r@) + lines(s@) == lines(s@));
    }
    while from < chars.len()
        invariant
            chars@ == s@,
            from <= chars@.len(),
            texts(r@) + lines(s@.skip(from as int)) == lines(s@),
        decreases chars@.len() - from,
    {
        let i: usize = find_char_from(&chars, '\n', from);
        let ghost rest = s@.skip(from as int);
        let ghost before = texts(r@);
        proof {
            lemma_first_char(rest, '\n');
        }
        if i < chars.len() {
            let end: usize = if i > from && chars[i - 1] == '\r' {
                i - 1
            } else {
                i
            };
            let line = s.substring_char(from, end).to_owned();
            proof {
                let raw = rest.take(i - from);
                assert(line@ == strip_cr(raw)) by {
                    if i > from {
                        assert(raw.last() == chars@[i - 1]);
                        assert(raw.drop_last() == s@.subrange(from as int, i - 1));
                    }
                    assert(raw == s@.subrange(from as int, i as int));
                }
                lemma_texts_push(r@, line);
                assert(rest.skip(i - from + 1) == s@.skip(i + 1));
                assert(before + (seq![line@] + lines(s@.skip(i + 1))) == before.push(line@)
                    + lines(s@.skip(i + 1)));
            }
            r.push(line);
            from = i + 1;
        } else {
            let line = s.substring_char(from, i).to_owned();
            proof {
                assert(line@ == rest);
                lemma_texts_push(r@, line);
                assert(s@.skip(i as int) == Seq::<char>::empty());
                assert(lines(s@.skip(i as int)) == Seq::<Seq<char>>::empty());
                assert(before + seq![line@] == before.push(line@));
                assert(before.push(line@) + lines(s@.skip(i as int)) == before.push(line@));
            }
            r.push(line);
            from = i;
        }
    }
    proof {
        assert(s@.skip(from as int) == Seq::<char>::empty());
        assert(lines(s@.skip(from as int)) == Seq::<Seq<char>>::empty());
        assert(texts(r@) + Seq::<Seq<char>>::empty() == texts(r@));
    }
    r
}

// ---------------------------------------------------------------------------
// Decimal numbers
// ---------------------------------------------------------------------------

/// The digit character of a number below ten.
pub open spec fn digit_char(n: int) -> char {
    ((n + 48) as u8) as char
}

/// The decimal digits of `n`, without leading zeros.
pub open spec fn decimal(n: nat) -> Seq<char>
    decreases n,
{
    if n < 10 {
        seq![digit_char(n as int)]
    } else {
        decimal(n / 10).push(digit_char((n % 10) as int))
    }
}

/// The decimal form of `n`.
pub fn decimal_of(n: u64) -> (r: String)
    ensures
        r@ == decimal(n as nat),
    decreases n,
{
    let mut r = if n < 10 {
        String::new()
    } else {
        decimal_of(n / 10)
    };
    let d: u8 = (n % 10) as u8;
    r.push((d + 48) as char);
    proof {
        if n < 10 {
            assert(r@ =~= seq![digit_char(n as int)]);
        }
    }
    r
}

/// The decimal form of a size.
pub fn decimal_of_usize(n: usize) -> (r: String)
    ensures
        r@ == decimal(n as nat),
{
    decimal_of(n as u64)
}

/// The number that a run of decimal digits stands for.
pub open spec fn digits_value(s: Seq<char>) -> nat
    decreases s.len(),
{
    if s.len() == 0 {
        0
    } else {
        (digits_value(s.drop_last()) * 10 + (s.last() as u32 - 48)) as nat
    }
}

/// Whether every character is a digit.
pub open spec fn all_digits(s: Seq<char>) -> bool {
    forall|i: int| 0 <= i < s.len() ==> is_digit(#[trigger] s[i])
}

/// `s` without one leading plus sign.
pub open spec fn unsigned_part(s: Seq<char>) -> Seq<char> {
    if s.len() > 0 && s[0] == '+' {
        s.drop_first()
    } else {
        s
    }
}

/// The number written in `s`: an optional plus sign, then one or more digits,
/// standing for a number of at most `max`.
pub open spec fn parse_number(s: Seq<char>, max: nat) -> Option<nat> {
    let digits = unsigned_part(s);
    if digits.len() > 0 && all_digits(digits) && digits_value(digits) <= max {
        Some(digits_value(digits))
    } else {
        None
    }
}

proof fn lemma_digits_value_take(s: Seq<char>, i: int)
    requires
        0 <= i <= s.len(),
        all_digits(s),
    ensures
        digits_value(s.take(i)) <= digits_value(s),
    decreases s.len() - i,
{
    if i < s.len() {
        lemma_digits_value_take(s, i + 1);
        assert(s.take(i + 1).drop_last() == s.take(i));
        assert(is_digit(s[i]));
    } else {
        assert(s.take(i) == s);
    }
}

proof fn lemma_decimal_digits(n: nat)
    ensures
        decimal(n).len() > 0,
        all_digits(decimal(n)),
        digits_value(decimal(n)) == n,
    decreases n,
{
    if n < 10 {
        assert(decimal(n).drop_last() =~= Seq::<char>::empty());
        assert(digits_value(decimal(n).drop_last()) == 0);
        assert(decimal(n).last() == digit_char(n as int));
    } else {
        lemma_decimal_digits(n / 10);
        assert(decimal(n).drop_last() =~= decimal(n / 10));
        assert(decimal(n).last() == digit_char((n % 10) as int));
        assert forall|i: int| 0 <= i < decimal(n).len() implies is_digit(
            #[trigger] decimal(n)[i],
        ) by {
            if i < decimal(n / 10).len() {
                assert(decimal(n)[i] == decimal(n / 10)[i]);
            }
        }
    }
}

/// The decimal form of a number reads back as that number.
pub proof fn law_decimal_is_read_back(n: nat, max: nat)
    requires
        n <= max,
    ensures
        parse_number(decimal(n), max) == Some(n),
{
    lemma_decimal_digits(n);
    assert(is_digit(decimal(n)[0]));
    assert(unsigned_part(decimal(n)) == decimal(n));
}

/// The number written in `s`, where it fits.
pub fn parse_u64(s: &str, max: u64) -> (r: Option<u64>)
    ensures
        match r {
            Some(n) => parse_number(s@, max as nat) == Some(n as nat),
            None => parse_number(s@, max as nat) is None,
        },
{
    let chars = chars_of(s);
    let from: usize = if chars.len() > 0 && chars[0] == '+' {
        1
    } else {
        0
    };
    let ghost digits = unsigned_part(s@);
    proof {
        assert(digits == s@.skip(from as int));
    }
    if chars.len() == from {
        return None;
    }
    let mut n: u64 = 0;
    let mut i: usize = from;
    while i < chars.len()
        invariant
            chars@ == s@,
            digits == s@.skip(from as int),
            digits == unsigned_part(s@),
            from <= i <= chars@.len(),
            forall|j: int| from <= j < i ==> is_digit(#[trigger] s@[j]),
            n as nat == digits_value(digits.take(i - from)),
            n <= max,
        decreases chars@.len() - i,
    {
        let c = chars[i];
        if !digit(c) {
            proof {
                assert(!is_digit(digits[i - from]));
            }
            return None;
        }
        let d: u64 = (c as u32 - 48) as u64;
        proof {
            assert(digits.take(i - from + 1).drop_last() == digits.take(i - from));
            assert(digits_value(digits.take(i - from + 1)) == n * 10 + d);
        }
        if d > max || n > max / 10 || n * 10 > max - d {
            proof {
                if all_digits(digits) {
                    lemma_digits_value_take(digits, i - from + 1);
                }
            }
            return None;
        }
        n = n * 10 + d;
        i = i + 1;
    }
    proof {
        assert(digits.take(i - from) == digits);
        assert forall|j: int| 0 <= j < digits.len() implies is_digit(#[trigger] digits[j]) by {
            assert(digits[j] == s@[from + j]);
        }
    }
    Some(n)
}

// ---------------------------------------------------------------------------
// Byte lengths
// ---------------------------------------------------------------------------

/// The number of bytes in the UTF-8 form of `c`.
pub open spec fn char_len(c: char) -> nat {
    let n = c as u32;
    if n < 0x80 {
        1
    } else if n < 0x800 {
        2
    } else if n < 0x10000 {
        3
    } else {
        4
    }
}

/// The number of bytes in the UTF-8 form of `s`.
pub open spec fn byte_len(s: Seq<char>) -> nat
    decreases s.len(),
{
    if s.len() == 0 {
        0
    } else {
        char_len(s[0]) + byte_len(s.drop_first())
    }
}

/// The bytes of a concatenation are those of its two parts.
pub proof fn lemma_byte_len_concat(a: Seq<char>, b: Seq<char>)
    ensures
        byte_len(a + b) == byte_len(a) + byte_len(b),
    decreases a.len(),
{
    if a.len() == 0 {
        assert(a + b =~= b);
    } else {
        lemma_byte_len_concat(a.drop_first(), b);
        assert((a + b).drop_first() =~= a.drop_first() + b);
    }
}

/// A text without its trailing white space has no more bytes.
pub proof fn lemma_trim_end_byte_len(s: Seq<char>)
    ensures
        byte_len(trim_end(s)) <= byte_len(s),
    decreases s.len(),
{
    if s.len() > 0 && is_white_space(s.last()) {
        lemma_trim_end_byte_len(s.drop_last());
        lemma_byte_len_concat(s.drop_last(), seq![s.last()]);
        assert(s =~= s.drop_last() + seq![s.last()]);
    }
}

/// The number of leading characters of `s` that fit in `max` bytes of UTF-8.
pub open spec fn fitting(s: Seq<char>, max: int) -> int
    decreases s.len(),
{
    if s.len() == 0 || char_len(s[0]) > max {
        0
    } else {
        1 + fitting(s.drop_first(), max - char_len(s[0]))
    }
}

/// The longest prefix of `s` that fits in `max` bytes of UTF-8.
pub open spec fn truncate(s: Seq<char>, max: int) -> Seq<char> {
    s.take(fitting(s, max))
}

/// The prefix that fits is a prefix, fits, and is everything where everything
/// fits.
pub proof fn lemma_fitting(s: Seq<char>, max: int)
    ensures
        0 <= fitting(s, max) <= s.len(),
        max >= 0 ==> byte_len(truncate(s, max)) <= max,
        max >= 0 ==> (fitting(s, max) == s.len() <==> byte_len(s) <= max),
    decreases s.len(),
{
    if s.len() > 0 && char_len(s[0]) <= max {
        let rest = s.drop_first();
        lemma_fitting(rest, max - char_len(s[0]));
        assert(truncate(s, max).drop_first() =~= truncate(rest, max - char_len(s[0])));
    }
}

/// Whether the UTF-8 form of `s` has more than `max` bytes.
pub fn longer_than(s: &str, max: usize) -> (r: bool)
    ensures
        r == (byte_len(s@) > max),
{
    proof {
        lemma_fitting(s@, max as int);
    }
    truncated(s, max).unicode_len() < s.unicode_len()
}

/// The longest prefix of `s` that fits in `max` bytes of UTF-8.
pub fn truncated(s: &str, max: usize) -> (r: &str)
    ensures
        r@ == truncate(s@, max as int),
{
    let chars = chars_of(s);
    let mut left: usize = max;
    let mut i: usize = 0;
    proof {
        assert(s@.skip(0) == s@);
        lemma_fitting(s@, max as int);
    }
    while i < chars.len()
        invariant
            chars@ == s@,
            i <= chars@.len(),
            fitting(s@, max as int) == i + fitting(s@.skip(i as int), left as int),
            fitting(s@, max as int) <= s@.len(),
        decreases chars@.len() - i,
    {
        let n: u32 = chars[i] as u32;
        let len: usize = if n < 0x80 {
            1
        } else if n < 0x800 {
            2
        } else if n < 0x10000 {
            3
        } else {
            4
        };
        if len > left {
            return s.substring_char(0, i);
        }
        proof {
            assert(s@.skip(i as int).drop_first() == s@.skip(i + 1));
        }
        left = left - len;
        i = i + 1;
    }
    s.substring_char(0, i)
}

// ---------------------------------------------------------------------------
// Order
// ---------------------------------------------------------------------------

/// Whether `a` stands before `b` or is `b`, by code points: the order of
/// their UTF-8 forms.
pub open spec fn lex_le(a: Seq<char>, b: Seq<char>) -> bool
    decreases a.len(),
{
    if a.len() == 0 {
        true
    } else if b.len() == 0 {
        false
    } else if a[0] == b[0] {
        lex_le(a.drop_first(), b.drop_first())
    } else {
        (a[0] as int) < (b[0] as int)
    }
}

/// Any two texts compare, and two that stand before each other are one.
pub proof fn lemma_lex_total(a: Seq<char>, b: Seq<char>)
    ensures
        lex_le(a, b) || lex_le(b, a),
        lex_le(a, b) && lex_le(b, a) ==> a == b,
    decreases a.len(),
{
    if a.len() > 0 && b.len() > 0 && a[0] == b[0] {
        lemma_lex_total(a.drop_first(), b.drop_first());
        if a.drop_first() == b.drop_first() {
            assert(a =~= seq![a[0]] + a.drop_first());
            assert(b =~= seq![b[0]] + b.drop_first());
        }
    } else if a.len() == 0 && b.len() == 0 {
        assert(a =~= b);
    }
}

/// The order of texts chains.
pub proof fn lemma_lex_transitive(a: Seq<char>, b: Seq<char>, c: Seq<char>)
    requires
        lex_le(a, b),
        lex_le(b, c),
    ensures
        lex_le(a, c),
    decreases a.len(),
{
    if a.len() > 0 && b.len() > 0 && c.len() > 0 && a[0] == b[0] && b[0] == c[0] {
        lemma_lex_transitive(a.drop_first(), b.drop_first(), c.drop_first());
    }
}

/// Whether `a` stands before `b` or is `b`.
pub fn str_le(a: &str, b: &str) -> (r: bool)
    ensures
        r == lex_le(a@, b@),
{
    let x = chars_of(a);
    let y = chars_of(b);
    let mut i: usize = 0;
    proof {
        assert(a@.skip(0) =~= a@);
        assert(b@.skip(0) =~= b@);
    }
    while i < x.len() && i < y.len()
        invariant
            x@ == a@,
            y@ == b@,
            i <= x@.len(),
            i <= y@.len(),
            lex_le(a@, b@) == lex_le(a@.skip(i as int), b@.skip(i as int)),
        decreases x@.len() - i,
    {
        let c: char = x[i];
        let d: char = y[i];
        if c != d {
            return c < d;
        }
        proof {
            assert(a@.skip(i as int).drop_first() =~= a@.skip(i + 1));
            assert(b@.skip(i as int).drop_first() =~= b@.skip(i + 1));
        }
        i = i + 1;
    }
    i >= x.len()
}

// ---------------------------------------------------------------------------
// Laws
// ---------------------------------------------------------------------------

/// Whether a text is white space through and through.
pub open spec fn is_space(s: Seq<char>) -> bool {
    forall|i: int| 0 <= i < s.len() ==> is_white_space(#[trigger] s[i])
}

/// Of the characters of ASCII the white space is the space and the five
/// control characters from the tab to the carriage return; letters, digits,
/// punctuation and other control characters are none.
pub proof fn law_ascii_space(c: char)
    requires
        (c as u32) < 0x80,
    ensures
        is_white_space(c) <==> c == ' ' || c == '\t' || c == '\n' || c == '\r' || c == '\u{b}'
            || c == '\u{c}',
{
}

proof fn lemma_trim_start_takes_space(s: Seq<char>)
    ensures
        trim_start(s).len() <= s.len(),
        s == s.take(s.len() - trim_start(s).len()) + trim_start(s),
        is_space(s.take(s.len() - trim_start(s).len())),
    decreases s.len(),
{
    if s.len() > 0 && is_white_space(s[0]) {
        let rest = s.drop_first();
        lemma_trim_start_takes_space(rest);
        let n = s.len() - trim_start(s).len();
        assert(s.take(n) =~= seq![s[0]] + rest.take(n - 1));
        assert forall|i: int| 0 <= i < s.take(n).len() implies is_white_space(
            #[trigger] s.take(n)[i],
        ) by {
            if i > 0 {
                assert(rest.take(n - 1)[i - 1] == s.take(n)[i]);
            }
        }
        assert(rest == rest.take(n - 1) + trim_start(rest));
        assert(s =~= seq![s[0]] + rest);
        assert(s =~= s.take(n) + trim_start(s));
    } else {
        assert(s =~= s.take(0) + s);
    }
}

proof fn lemma_trim_end_takes_space(s: Seq<char>)
    ensures
        trim_end(s).len() <= s.len(),
        s == trim_end(s) + s.skip(trim_end(s).len() as int),
        is_space(s.skip(trim_end(s).len() as int)),
    decreases s.len(),
{
    lemma_trim_end(s);
    if s.len() > 0 && is_white_space(s.last()) {
        let front = s.drop_last();
        lemma_trim_end_takes_space(front);
        let n = trim_end(s).len() as int;
        assert(s.skip(n) =~= front.skip(n).push(s.last()));
        assert forall|i: int| 0 <= i < s.skip(n).len() implies is_white_space(
            #[trigger] s.skip(n)[i],
        ) by {
            if i < front.skip(n).len() {
                assert(front.skip(n)[i] == s.skip(n)[i]);
            }
        }
        assert(s =~= trim_end(s) + s.skip(n));
    } else {
        assert(s =~= s + s.skip(s.len() as int));
    }
}

/// Trimming takes white space away and nothing else, all of it that stands at
/// the ends that are trimmed.
pub proof fn law_trimming_takes_space_and_nothing_else(s: Seq<char>)
    ensures
        exists|i: int|
            0 <= i <= s.len() && trim_start(s) == s.skip(i) && is_space(#[trigger] s.take(i)),
        exists|i: int|
            0 <= i <= s.len() && trim_end(s) == s.take(i) && is_space(#[trigger] s.skip(i)),
        exists|i: int, j: int|
            0 <= i <= j <= s.len() && trim(s) == s.subrange(i, j) && is_space(#[trigger] s.take(i))
                && is_space(#[trigger] s.skip(j)),
        trim_start(s).len() > 0 ==> !is_white_space(trim_start(s)[0]),
        trim_end(s).len() > 0 ==> !is_white_space(trim_end(s).last()),
        trim(s).len() > 0 ==> !is_white_space(trim(s)[0]) && !is_white_space(trim(s).last()),
{
    lemma_trim_start_takes_space(s);
    lemma_trim_start(s);
    lemma_trim_end_takes_space(s);
    lemma_trim_end(s);
    lemma_trim(s);
    let t = trim_start(s);
    lemma_trim_end(t);
    lemma_trim_end_takes_space(t);
    let i = s.len() - t.len();
    assert(t =~= s.skip(i));
    let j = i + trim(s).len();
    assert(s.skip(j) =~= t.skip(trim(s).len() as int));
    assert(trim(s) =~= s.subrange(i, j));
    assert(is_space(s.take(i)) && is_space(s.skip(j)));
}

/// A text that begins and ends in something else than white space is left as
/// it is by trimming, whatever white space is put round it.
pub proof fn law_trimming_finds_the_core(a: Seq<char>, s: Seq<char>, b: Seq<char>)
    requires
        is_space(a),
        is_space(b),
        s.len() > 0 ==> !is_white_space(s[0]) && !is_white_space(s.last()),
    ensures
        trim(a + s + b) == s,
    decreases a.len() + b.len(),
{
    let all = a + s + b;
    if a.len() > 0 {
        assert(is_white_space(a[0]));
        assert(all.drop_first() =~= a.drop_first() + s + b);
        assert forall|i: int| 0 <= i < a.drop_first().len() implies is_white_space(
            #[trigger] a.drop_first()[i],
        ) by {
            assert(a.drop_first()[i] == a[i + 1]);
        }
        law_trimming_finds_the_core(a.drop_first(), s, b);
    } else if s.len() > 0 {
        assert(all =~= s + b);
        assert(trim_start(all) == all);
        lemma_trim_end_drops(s, b);
    } else if b.len() > 0 {
        assert(is_white_space(b[0]));
        assert(all.drop_first() =~= a + s + b.drop_first());
        assert forall|i: int| 0 <= i < b.drop_first().len() implies is_white_space(
            #[trigger] b.drop_first()[i],
        ) by {
            assert(b.drop_first()[i] == b[i + 1]);
        }
        law_trimming_finds_the_core(a, s, b.drop_first());
    } else {
        assert(all =~= s);
    }
}

proof fn lemma_trim_end_drops(s: Seq<char>, b: Seq<char>)
    requires
        is_space(b),
        s.len() > 0 ==> !is_white_space(s.last()),
    ensures
        trim_end(s + b) == s,
    decreases b.len(),
{
    if b.len() > 0 {
        assert(is_white_space(b[b.len() - 1]));
        assert((s + b).drop_last() =~= s + b.drop_last());
        assert forall|i: int| 0 <= i < b.drop_last().len() implies is_white_space(
            #[trigger] b.drop_last()[i],
        ) by {
            assert(b.drop_last()[i] == b[i]);
        }
        lemma_trim_end_drops(s, b.drop_last());
    } else {
        assert(s + b =~= s);
    }
}

/// Cutting a run of one character off an end takes that character and nothing
/// else, and all of it that stands there.
pub proof fn law_cut_runs_are_of_one_character(s: Seq<char>, c: char)
    ensures
        trim_end_char(s, c).len() <= s.len(),
        trim_end_char(s, c) == s.take(trim_end_char(s, c).len() as int),
        forall|i: int| trim_end_char(s, c).len() <= i < s.len() ==> s[i] == c,
        trim_end_char(s, c).len() > 0 ==> trim_end_char(s, c).last() != c,
        trim_start_char(s, c).len() <= s.len(),
        trim_start_char(s, c) == s.skip(s.len() - trim_start_char(s, c).len()),
        forall|i: int| 0 <= i < s.len() - trim_start_char(s, c).len() ==> s[i] == c,
        trim_start_char(s, c).len() > 0 ==> trim_start_char(s, c)[0] != c,
    decreases s.len(),
{
    if s.len() > 0 && s.last() == c {
        let front = s.drop_last();
        law_cut_runs_are_of_one_character(front, c);
        assert(trim_end_char(s, c) =~= s.take(trim_end_char(s, c).len() as int));
        assert forall|i: int| trim_end_char(s, c).len() <= i < s.len() implies s[i] == c by {
            if i < front.len() {
                assert(front[i] == c);
            }
        }
    } else {
        assert(s =~= s.take(s.len() as int));
    }
    if s.len() > 0 && s[0] == c {
        let rest = s.drop_first();
        law_cut_runs_are_of_one_character(rest, c);
        assert(trim_start_char(s, c) =~= s.skip(s.len() - trim_start_char(s, c).len()));
        assert forall|i: int| 0 <= i < s.len() - trim_start_char(s, c).len() implies s[i]
            == c by {
            if i > 0 {
                assert(rest[i - 1] == c);
            }
        }
    } else {
        assert(s =~= s.skip(0));
    }
}

/// Lower case keeps the length and every character but the capital letters of
/// ASCII, each of which becomes the small letter of its place in the alphabet.
pub proof fn law_lower_case_changes_capitals_only(s: Seq<char>)
    ensures
        lowered(s).len() == s.len(),
        forall|i: int| #![trigger lowered(s)[i]]
            0 <= i < s.len() ==> if 'A' <= s[i] && s[i] <= 'Z' {
                lowered(s)[i] as int - 'a' as int == s[i] as int - 'A' as int
            } else {
                lowered(s)[i] == s[i]
            },
        lowered(lowered(s)) == lowered(s),
{
    assert(lowered(lowered(s)) =~= lowered(s));
}

/// A prefix is what a text begins with: putting one in front and stripping it
/// undo each other, and so do a suffix put behind and stripped.
pub proof fn law_stripping_undoes_putting(s: Seq<char>, p: Seq<char>)
    ensures
        strip_prefix(p + s, p) == Some(s),
        strip_suffix(s + p, p) == Some(s),
        starts_with(p + s, p),
        ends_with(s + p, p),
        strip_prefix(s, p) matches Some(rest) ==> s == p + rest,
        strip_suffix(s, p) matches Some(rest) ==> s == rest + p,
        strip_prefix(s, p) is Some <==> starts_with(s, p),
        strip_suffix(s, p) is Some <==> ends_with(s, p),
{
    assert((p + s).take(p.len() as int) =~= p);
    assert((p + s).skip(p.len() as int) =~= s);
    assert((s + p).skip(s.len() as int) =~= p);
    assert((s + p).take(s.len() as int) =~= s);
    if starts_with(s, p) {
        assert(s =~= p + s.skip(p.len() as int));
    }
    if ends_with(s, p) {
        assert(s =~= s.take(s.len() - p.len()) + p);
    }
}

/// A text holds another where it is some text, the other, and some text; the
/// first place is the one with the shortest text in front.
pub proof fn law_searching_finds_the_first_place(a: Seq<char>, p: Seq<char>, b: Seq<char>)
    ensures
        contains(a + p + b, p),
        first_occurrence(a + p + b, p, 0) matches Some(i) && i <= a.len() && (a + p + b).subrange(
            i,
            i + p.len(),
        ) == p,
{
    let s = a + p + b;
    assert(s.subrange(a.len() as int, (a.len() + p.len()) as int) =~= p);
    assert(occurs_at(s, p, a.len() as int));
    lemma_first_occurrence_is(s, p, 0);
}

proof fn lemma_first_occurrence_is(s: Seq<char>, p: Seq<char>, from: int)
    requires
        0 <= from,
    ensures
        match first_occurrence(s, p, from) {
            Some(i) => from <= i && occurs_at(s, p, i) && forall|j: int|
                from <= j < i ==> !occurs_at(s, p, j),
            None => forall|j: int| from <= j ==> !occurs_at(s, p, j),
        },
    decreases s.len() + 1 - from,
{
    if from <= s.len() && !occurs_at(s, p, from) {
        lemma_first_occurrence_is(s, p, from + 1);
    }
}

/// A text that holds another has it at a first place, and one that does not
/// has it nowhere.
pub proof fn law_found_places_hold_the_text(s: Seq<char>, p: Seq<char>)
    ensures
        match first_occurrence(s, p, 0) {
            Some(i) => s == s.take(i) + p + s.skip(i + p.len()) && !contains(
                s.take(i + p.len() - 1),
                p,
            ) || p.len() == 0,
            None => !contains(s, p),
        },
{
    lemma_first_occurrence_is(s, p, 0);
    if let Some(i) = first_occurrence(s, p, 0) {
        if p.len() > 0 {
            assert(s =~= s.take(i) + p + s.skip(i + p.len()));
            let front = s.take(i + p.len() - 1);
            assert forall|j: int| !occurs_at(front, p, j) by {
                if occurs_at(front, p, j) {
                    assert(s.subrange(j, j + p.len()) =~= front.subrange(j, j + p.len()));
                    assert(occurs_at(s, p, j));
                }
            }
        }
    }
}

/// No piece of a split text holds the separator.
pub proof fn law_pieces_hold_no_separator(s: Seq<char>, c: char)
    ensures
        forall|i: int| #![trigger split(s, c)[i]] 0 <= i < split(s, c).len() ==> !split(s, c)[i].contains(c),
    decreases s.len(),
{
    lemma_first_char(s, c);
    let i = first_char(s, c);
    if i < s.len() {
        let rest = s.skip(i + 1);
        law_pieces_hold_no_separator(rest, c);
        assert forall|k: int| #![trigger split(s, c)[k]] 0 <= k < split(s, c).len() implies !split(
            s,
            c,
        )[k].contains(c) by {
            if k > 0 {
                assert(split(s, c)[k] == split(rest, c)[k - 1]);
            }
        }
    }
}

/// Pieces without the separator come back from their join as they were.
pub proof fn law_split_undoes_join(parts: Seq<Seq<char>>, c: char)
    requires
        parts.len() > 0,
        forall|i: int| 0 <= i < parts.len() ==> !(#[trigger] parts[i]).contains(c),
    ensures
        split(join(parts, seq![c]), c) == parts,
    decreases parts.len(),
{
    let first = parts[0];
    let rest = parts.drop_first();
    if rest.len() == 0 {
        assert(parts =~= seq![first]);
        lemma_first_char_is(first, c, first.len() as int);
        assert(split(first, c) =~= seq![first]);
    } else {
        assert(parts =~= seq![first] + rest);
        lemma_join_first(first, rest, seq![c]);
        let all = join(parts, seq![c]);
        let tail = join(rest, seq![c]);
        assert(all == first + seq![c] + tail);
        assert forall|j: int| 0 <= j < first.len() implies all[j] != c by {
            assert(all[j] == first[j]);
            assert(first.contains(first[j]));
        }
        lemma_first_char_is(all, c, first.len() as int);
        assert(all.take(first.len() as int) =~= first);
        assert(all.skip(first.len() as int + 1) =~= tail);
        assert forall|i: int| 0 <= i < rest.len() implies !(#[trigger] rest[i]).contains(c) by {
            assert(rest[i] == parts[i + 1]);
        }
        law_split_undoes_join(rest, c);
        assert(split(all, c) =~= parts);
    }
}

/// A join of two runs of parts is the two joins with a separator between them,
/// and a single part is joined to itself.
pub proof fn law_joins_are_joined(a: Seq<Seq<char>>, b: Seq<Seq<char>>, part: Seq<char>, sep: Seq<char>)
    requires
        a.len() > 0,
        b.len() > 0,
    ensures
        join(a + b, sep) == join(a, sep) + sep + join(b, sep),
        join(seq![part], sep) == part,
        join(Seq::empty(), sep).len() == 0,
    decreases a.len(),
{
    let rest = a.drop_first();
    if rest.len() == 0 {
        assert(a =~= seq![a[0]]);
        lemma_join_first(a[0], b, sep);
    } else {
        law_joins_are_joined(rest, b, part, sep);
        assert(a =~= seq![a[0]] + rest);
        assert(a + b =~= seq![a[0]] + (rest + b));
        lemma_join_first(a[0], rest, sep);
        lemma_join_first(a[0], rest + b, sep);
        assert(join(a + b, sep) =~= join(a, sep) + sep + join(b, sep));
    }
}

/// The lines of a text are its pieces between line feeds, each without the
/// carriage return in front of its line feed; an empty piece at the end is no
/// line, and text behind the last line feed is kept as it is.
pub proof fn law_lines_are_pieces(s: Seq<char>)
    ensures
        lines(s).len() == split(s, '\n').len() - if split(s, '\n').last().len() == 0 {
            1int
        } else {
            0int
        },
        forall|i: int| #![trigger lines(s)[i]]
            0 <= i < split(s, '\n').len() - 1 ==> {
                let piece = split(s, '\n')[i];
                if piece.len() > 0 && piece.last() == '\r' {
                    lines(s)[i].push('\r') == piece
                } else {
                    lines(s)[i] == piece
                }
            },
        split(s, '\n').last().len() > 0 ==> lines(s).last() == split(s, '\n').last(),
    decreases s.len(),
{
    lemma_first_char(s, '\n');
    law_join_undoes_split(s, '\n');
    let i = first_char(s, '\n');
    if i < s.len() {
        let rest = s.skip(i + 1);
        law_lines_are_pieces(rest);
        law_join_undoes_split(rest, '\n');
        assert(split(s, '\n').last() == split(rest, '\n').last());
        assert forall|k: int| #![trigger lines(s)[k]] 0 <= k < split(s, '\n').len() - 1 implies ({
            let piece = split(s, '\n')[k];
            if piece.len() > 0 && piece.last() == '\r' {
                lines(s)[k].push('\r') == piece
            } else {
                lines(s)[k] == piece
            }
        }) by {
            if k > 0 {
                assert(lines(s)[k] == lines(rest)[k - 1]);
                assert(split(s, '\n')[k] == split(rest, '\n')[k - 1]);
            } else {
                let piece = split(s, '\n')[0];
                assert(piece == s.take(i));
                if piece.len() > 0 && piece.last() == '\r' {
                    assert(lines(s)[0].push('\r') =~= piece);
                }
            }
        }
    }
}

/// Text in lines without line feeds or carriage returns at their ends, each
/// ended by a line feed, has those lines.
pub proof fn law_ended_lines_are_read(parts: Seq<Seq<char>>)
    requires
        parts.len() > 0,
        forall|i: int| 0 <= i < parts.len() ==> !(#[trigger] parts[i]).contains('\n') && (
        parts[i].len() > 0 ==> parts[i].last() != '\r'),
    ensures
        lines(join(parts, seq!['\n']).push('\n')) == parts,
{
    let ended = parts.push(Seq::empty());
    assert(join(ended, seq!['\n']) =~= join(parts, seq!['\n']).push('\n')) by {
        assert(ended.drop_last() =~= parts);
    }
    law_split_undoes_join(ended, '\n');
    let s = join(parts, seq!['\n']).push('\n');
    law_lines_are_pieces(s);
    assert forall|i: int| 0 <= i < parts.len() implies #[trigger] lines(s)[i] == parts[i] by {
        assert(split(s, '\n')[i] == parts[i]);
    }
    assert(lines(s) =~= parts);
}

/// A number is written in digits without a leading zero, and a digit written
/// behind it counts ten times the number and itself.
pub proof fn law_digits_count_by_tens(n: nat, d: nat)
    requires
        d < 10,
        n > 0,
    ensures
        decimal(d).len() == 1,
        decimal(d)[0] as int == '0' as int + d,
        decimal(10 * n + d) == decimal(n) + decimal(d),
        decimal(n)[0] != '0',
    decreases n,
{
    assert((10 * n + d) / 10 == n);
    assert((10 * n + d) % 10 == d);
    assert(decimal(10 * n + d) =~= decimal(n) + decimal(d));
    if n >= 10 {
        law_digits_count_by_tens(n / 10, d);
        lemma_decimal_digits(n / 10);
        assert(decimal(n)[0] == decimal(n / 10)[0]);
    }
}

/// A text is read as a number where it is digits, at least one, behind at most
/// one plus sign, and the number is no larger than the largest that fits;
/// leading zeros do not count.
pub proof fn law_numbers_are_read_from_digits(s: Seq<char>, max: nat)
    ensures
        parse_number(s, max) matches Some(n) ==> n <= max,
        parse_number(s, max) is Some ==> s.len() > 0 && is_digit(s.last()) && (is_digit(s[0])
            || s[0] == '+') && forall|i: int| 1 <= i < s.len() ==> is_digit(#[trigger] s[i]),
        s.len() > 0 && s[0] != '+' ==> parse_number(seq!['+'] + s, max) == parse_number(s, max),
        s.len() > 0 && is_digit(s[0]) ==> parse_number(seq!['0'] + s, max) == parse_number(s, max),
        parse_number(seq!['+', '+'] + s, max) is None,
        parse_number(Seq::empty(), max) is None,
{
    let digits = unsigned_part(s);
    if digits.len() > 0 && all_digits(digits) {
        assert(is_digit(digits[digits.len() - 1]));
        assert(digits.last() == s.last());
        assert(is_digit(digits[0]));
        assert forall|i: int| 1 <= i < s.len() implies is_digit(#[trigger] s[i]) by {
            if s[0] == '+' {
                assert(digits[i - 1] == s[i]);
            } else {
                assert(digits[i] == s[i]);
            }
        }
    }
    assert((seq!['+'] + s).drop_first() =~= s);
    let twice = seq!['+', '+'] + s;
    assert(twice.drop_first() =~= seq!['+'] + s);
    assert(twice.drop_first()[0] == '+');
    if s.len() > 0 && is_digit(s[0]) {
        let z = seq!['0'] + s;
        lemma_leading_zero(s);
        if all_digits(s) {
            assert forall|i: int| 0 <= i < z.len() implies is_digit(#[trigger] z[i]) by {
                if i > 0 {
                    assert(z[i] == s[i - 1]);
                }
            }
        } else {
            let i = choose|i: int| 0 <= i < s.len() && !is_digit(#[trigger] s[i]);
            assert(z[i + 1] == s[i]);
        }
    }
}

proof fn lemma_leading_zero(s: Seq<char>)
    ensures
        digits_value(seq!['0'] + s) == digits_value(s),
    decreases s.len(),
{
    let z = seq!['0'] + s;
    if s.len() == 0 {
        assert(z.drop_last() =~= Seq::empty());
        assert(digits_value(z.drop_last()) == 0);
    } else {
        lemma_leading_zero(s.drop_last());
        assert(z.drop_last() =~= seq!['0'] + s.drop_last());
    }
}

/// The bytes of a text are counted as its UTF-8 form has them.
pub proof fn law_bytes_are_those_of_utf8(s: Seq<char>)
    ensures
        byte_len(s) == vstd::utf8::encode_utf8(s).len(),
    decreases s.len(),
{
    if s.len() > 0 {
        law_bytes_are_those_of_utf8(s.drop_first());
        vstd::utf8::char_is_scalar(s[0]);
    }
}

/// A truncated text is a beginning of the text that fits, and one character
/// more would not fit.
pub proof fn law_truncation_keeps_all_that_fits(s: Seq<char>, max: int)
    requires
        max >= 0,
    ensures
        truncate(s, max).len() <= s.len(),
        truncate(s, max) == s.take(truncate(s, max).len() as int),
        byte_len(truncate(s, max)) <= max,
        truncate(s, max).len() < s.len() ==> byte_len(
            s.take(truncate(s, max).len() as int + 1),
        ) > max,
    decreases s.len(),
{
    lemma_fitting(s, max);
    if s.len() > 0 {
        let one = s.take(1);
        assert(one.drop_first() =~= Seq::empty());
        assert(byte_len(one.drop_first()) == 0);
        assert(one[0] == s[0]);
        if char_len(s[0]) <= max {
            let rest = s.drop_first();
            law_truncation_keeps_all_that_fits(rest, max - char_len(s[0]));
            lemma_fitting(rest, max - char_len(s[0]));
            let n = truncate(rest, max - char_len(s[0])).len() as int;
            assert(truncate(s, max).len() == n + 1);
            if n < rest.len() {
                assert(s.take(n + 2).drop_first() =~= rest.take(n + 1));
                assert(s.take(n + 2)[0] == s[0]);
            }
        } else {
            assert(truncate(s, max).len() == 0);
            assert(byte_len(one) == char_len(s[0]));
        }
    }
}

/// The order of texts is that of a dictionary: a beginning stands before the
/// whole, and otherwise the first difference decides.
pub proof fn law_first_difference_decides(p: Seq<char>, a: Seq<char>, b: Seq<char>)
    ensures
        lex_le(p, p + a),
        a.len() > 0 ==> !lex_le(p + a, p),
        a.len() > 0 && b.len() > 0 && a[0] != b[0] ==> (lex_le(p + a, p + b) <==> (a[0] as int) < (
        b[0] as int)),
    decreases p.len(),
{
    if p.len() > 0 {
        law_first_difference_decides(p.drop_first(), a, b);
        assert((p + a).drop_first() =~= p.drop_first() + a);
        assert((p + b).drop_first() =~= p.drop_first() + b);
    } else {
        assert(p + a =~= a);
        assert(p + b =~= b);
    }
}

/// What a part of a text holds, the text holds.
pub proof fn law_parts_are_held(a: Seq<char>, s: Seq<char>, b: Seq<char>, p: Seq<char>)
    requires
        contains(s, p),
    ensures
        contains(a + s + b, p),
{
    let i = choose|i: int| occurs_at(s, p, i);
    let all = a + s + b;
    let at = a.len() + i;
    assert(all.subrange(at, at + p.len()) =~= s.subrange(i, i + p.len()));
    assert(occurs_at(all, p, at));
}

} // verus!
