//! Requests as a server sees them.

use crate::text;
use crate::text::{
    chars_of, find_char_from, lines_of, lossy_text, owned, parse_u64, str_eq, string_of,
    to_ascii_lower, trimmed, trimmed_start, white_space,
};
use vstd::prelude::*;

verus! {

/// One request.
#[derive(Debug, Clone)]
pub struct RecordedRequest {
    pub method: String,
    pub path: String,
    pub headers: Vec<(String, String)>,
    pub body: String,
}

/// The value of the first header of that name, from the `k`-th on. Case does
/// not count.
pub open spec fn header_from(headers: Seq<(Seq<char>, Seq<char>)>, name: Seq<char>, k: int) -> Option<
    Seq<char>,
>
    decreases headers.len() - k,
{
    if k >= headers.len() {
        None
    } else if text::lowered(headers[k].0) == text::lowered(name) {
        Some(headers[k].1)
    } else {
        header_from(headers, name, k + 1)
    }
}

impl RecordedRequest {
    /// The value of a header.
    pub fn header(&self, name: &str) -> (r: Option<&str>)
        ensures
            text::opt_str(r) == header_from(text::pairs(self.headers@), name@, 0),
    {
        let wanted = to_ascii_lower(name);
        let mut k: usize = 0;
        while k < self.headers.len()
            invariant
                k <= self.headers@.len(),
                wanted@ == text::lowered(name@),
                header_from(text::pairs(self.headers@), name@, 0) == header_from(
                    text::pairs(self.headers@),
                    name@,
                    k as int,
                ),
            decreases self.headers@.len() - k,
        {
            let found = to_ascii_lower(self.headers[k].0.as_str());
            if str_eq(found.as_str(), wanted.as_str()) {
                return Some(self.headers[k].1.as_str());
            }
            k = k + 1;
        }
        None
    }
}

// ---------------------------------------------------------------------------
// Reading a request
// ---------------------------------------------------------------------------

/// Whether bytes stand at a place.
pub open spec fn stands_at(haystack: Seq<u8>, needle: Seq<u8>, i: int) -> bool {
    0 <= i && i + needle.len() <= haystack.len() && haystack.subrange(i, i + needle.len()) == needle
}

/// Where bytes first stand in others.
pub fn find_subslice(haystack: &[u8], needle: &[u8]) -> (r: Option<usize>)
    requires
        needle@.len() > 0,
    ensures
        match r {
            Some(i) => stands_at(haystack@, needle@, i as int) && forall|j: int|
                0 <= j < i ==> !stands_at(haystack@, needle@, j),
            None => forall|j: int| !stands_at(haystack@, needle@, j),
        },
{
    let total: usize = haystack.len();
    let count: usize = needle.len();
    let mut i: usize = 0;
    while i < total && count <= total - i
        invariant
            total == haystack@.len(),
            count == needle@.len(),
            count > 0,
            i <= total,
            forall|j: int| 0 <= j < i ==> !stands_at(haystack@, needle@, j),
        decreases total - i,
    {
        let mut k: usize = 0;
        while k < count && haystack[i + k] == needle[k]
            invariant
                total == haystack@.len(),
                count == needle@.len(),
                i < total,
                count <= total - i,
                k <= count,
                forall|m: int| 0 <= m < k ==> haystack@[i + m] == needle@[m],
            decreases count - k,
        {
            k = k + 1;
        }
        if k == count {
            assert(haystack@.subrange(i as int, i + count) =~= needle@);
            return Some(i);
        }
        proof {
            assert(!stands_at(haystack@, needle@, i as int)) by {
                if stands_at(haystack@, needle@, i as int) {
                    assert(haystack@.subrange(i as int, i + count)[k as int] == haystack@[i + k]);
                }
            }
        }
        i = i + 1;
    }
    None
}

/// A text in two at its first colon, where it has one.
pub open spec fn at_colon(line: Seq<char>) -> Option<(Seq<char>, Seq<char>)> {
    let i = text::first_char(line, ':');
    if i < line.len() {
        Some((line.take(i), line.skip(i + 1)))
    } else {
        None
    }
}

/// The headers among the first `k` lines: a name and a value without
/// surrounding space.
pub open spec fn headers_in(lines: Seq<Seq<char>>, k: int) -> Seq<(Seq<char>, Seq<char>)>
    decreases k,
{
    if k <= 0 {
        Seq::empty()
    } else {
        match at_colon(lines[k - 1]) {
            Some((name, value)) => headers_in(lines, k - 1).push(
                (text::trim(name), text::trim(value)),
            ),
            None => headers_in(lines, k - 1),
        }
    }
}

/// The length of the body that the last header of that kind tells; zero where
/// none does.
pub open spec fn length_in(headers: Seq<(Seq<char>, Seq<char>)>) -> nat
    decreases headers.len(),
{
    if headers.len() == 0 {
        0
    } else if text::lowered(headers.last().0) == "content-length"@ {
        match text::parse_number(headers.last().1, usize::MAX as nat) {
            Some(n) => n,
            None => 0,
        }
    } else {
        length_in(headers.drop_last())
    }
}

/// Where the first white space is, or the end.
pub open spec fn word_end(s: Seq<char>) -> int
    decreases s.len(),
{
    if s.len() == 0 || text::is_white_space(s[0]) {
        0
    } else {
        1 + word_end(s.drop_first())
    }
}

/// The first word of a text, and what follows it.
pub open spec fn first_word(s: Seq<char>) -> (Seq<char>, Seq<char>) {
    let t = text::trim_start(s);
    (t.take(word_end(t)), t.skip(word_end(t)))
}

/// What the head of a request tells.
#[verifier::ext_equal]
pub struct HeadView {
    pub method: Seq<char>,
    pub path: Seq<char>,
    pub headers: Seq<(Seq<char>, Seq<char>)>,
}

/// What the head of a request tells.
pub open spec fn head_of(head: Seq<char>) -> HeadView {
    let lines = text::lines(head);
    let first = if lines.len() > 0 {
        lines[0]
    } else {
        Seq::empty()
    };
    let (method, rest) = first_word(first);
    HeadView {
        method,
        path: first_word(rest).0,
        headers: if lines.len() > 0 {
            headers_in(lines.drop_first(), lines.len() - 1)
        } else {
            Seq::empty()
        },
    }
}

/// The end of the head of a request.
pub open spec fn blank_line() -> Seq<u8> {
    seq![13u8, 10, 13, 10]
}

/// Whether bytes are a request up to its end: a head that ends at `end`, and
/// at least as much behind it as the head tells.
pub open spec fn is_whole(buf: Seq<u8>, end: int) -> bool {
    &&& stands_at(buf, blank_line(), end)
    &&& forall|j: int| 0 <= j < end ==> !stands_at(buf, blank_line(), j)
    &&& buf.len() - end - 4 >= length_in(head_of(text::lossy(buf.take(end))).headers)
}

/// Whether a request is the one that bytes are, with the head up to `end`.
pub open spec fn is_request(r: RecordedRequest, buf: Seq<u8>, end: int) -> bool {
    let head = head_of(text::lossy(buf.take(end)));
    let length = length_in(head.headers) as int;
    &&& r.method@ == head.method
    &&& r.path@ == head.path
    &&& text::pairs(r.headers@) == head.headers
    &&& r.body@ == text::lossy(buf.subrange(end + 4, end + 4 + length))
}

fn split_word(s: &str) -> (r: (String, String))
    ensures
        (r.0@, r.1@) == first_word(s@),
{
    let t = trimmed_start(s);
    let chars = chars_of(t);
    let mut i: usize = 0;
    assert(t@.skip(0) =~= t@);
    while i < chars.len() && !white_space(chars[i])
        invariant
            chars@ == t@,
            i <= chars@.len(),
            word_end(t@) == i + word_end(t@.skip(i as int)),
        decreases chars@.len() - i,
    {
        assert(t@.skip(i as int).drop_first() =~= t@.skip(i + 1));
        i = i + 1;
    }
    let total: usize = chars.len();
    assert(word_end(t@.skip(i as int)) == 0);
    let word = string_of(vstd::slice::slice_subrange(chars.as_slice(), 0, i));
    let rest = string_of(vstd::slice::slice_subrange(chars.as_slice(), i, total));
    proof {
        assert(word@ =~= t@.take(i as int));
        assert(rest@ =~= t@.skip(i as int));
    }
    (word, rest)
}

fn split_colon(line: &str) -> (r: Option<(String, String)>)
    ensures
        match r {
            Some((name, value)) => at_colon(line@) == Some((name@, value@)),
            None => at_colon(line@) is None,
        },
{
    let chars = chars_of(line);
    let i: usize = find_char_from(&chars, ':', 0);
    let total: usize = chars.len();
    proof {
        text::lemma_first_char(line@, ':');
        assert(line@.skip(0) =~= line@);
    }
    if i >= total {
        return None;
    }
    let name = string_of(vstd::slice::slice_subrange(chars.as_slice(), 0, i));
    let value = string_of(vstd::slice::slice_subrange(chars.as_slice(), i + 1, total));
    proof {
        assert(name@ =~= line@.take(i as int));
        assert(value@ =~= line@.skip(i + 1));
    }
    Some((name, value))
}

fn told_length(headers: &Vec<(String, String)>) -> (r: usize)
    ensures
        r == length_in(text::pairs(headers@)),
{
    let ghost all = text::pairs(headers@);
    let mut k: usize = headers.len();
    assert(all.take(k as int) =~= all);
    while k > 0
        invariant
            k <= headers@.len(),
            all == text::pairs(headers@),
            length_in(all) == length_in(all.take(k as int)),
        decreases k,
    {
        proof {
            assert(all.take(k as int).drop_last() =~= all.take(k - 1));
            assert(all.take(k as int).last() == (headers@[k - 1].0@, headers@[k - 1].1@));
        }
        let name = to_ascii_lower(headers[k - 1].0.as_str());
        if str_eq(name.as_str(), "content-length") {
            return match parse_u64(headers[k - 1].1.as_str(), usize::MAX as u64) {
                Some(n) => n as usize,
                None => 0,
            };
        }
        k = k - 1;
    }
    assert(all.take(0).len() == 0);
    0
}

/// The request that bytes are, once it is whole.
pub fn read_request(buf: &[u8]) -> (r: Option<RecordedRequest>)
    ensures
        match r {
            Some(request) => exists|end: int| #[trigger]
                is_whole(buf@, end) && is_request(request, buf@, end),
            None => forall|end: int| !is_whole(buf@, end),
        },
{
    let mark: [u8; 4] = [13, 10, 13, 10];
    assert(mark@ =~= blank_line());
    let end: usize = match find_subslice(buf, mark.as_slice()) {
        Some(i) => i,
        None => {
            return None;
        },
    };
    let total: usize = buf.len();
    let head = lossy_text(vstd::slice::slice_subrange(buf, 0, end));
    assert(buf@.subrange(0, end as int) =~= buf@.take(end as int));
    let lines = lines_of(head.as_str());
    let ghost all = text::texts(lines@);
    let (method, rest) = if lines.len() > 0 {
        split_word(lines[0].as_str())
    } else {
        split_word("")
    };
    proof {
        reveal_strlit("");
        assert(""@ =~= Seq::<char>::empty());
    }
    let (path, _) = split_word(rest.as_str());
    let mut headers: Vec<(String, String)> = Vec::new();
    let ghost tail = if all.len() > 0 {
        all.drop_first()
    } else {
        all
    };
    let mut k: usize = 1;
    assert(text::pairs(headers@) =~= Seq::<(Seq<char>, Seq<char>)>::empty());
    while k < lines.len()
        invariant
            all == text::texts(lines@),
            tail == if all.len() > 0 {
                all.drop_first()
            } else {
                all
            },
            1 <= k,
            lines@.len() > 0 ==> k <= lines@.len(),
            lines@.len() == 0 ==> k == 1,
            text::pairs(headers@) == headers_in(tail, k - 1),
        decreases lines@.len() - k,
    {
        assert(tail[k - 1] == lines@[k as int]@);
        if let Some((name, value)) = split_colon(lines[k].as_str()) {
            let ghost before = headers@;
            headers.push((owned(trimmed(name.as_str())), owned(trimmed(value.as_str()))));
            assert(text::pairs(headers@) =~= text::pairs(before).push(
                (text::trim(name@), text::trim(value@)),
            ));
        }
        k = k + 1;
    }
    let length: usize = told_length(&headers);
    let ghost view = head_of(text::lossy(buf@.take(end as int)));
    assert(text::pairs(headers@) == view.headers);
    if total - end - 4 < length {
        assert forall|other: int| !is_whole(buf@, other) by {
            if is_whole(buf@, other) {
                assert(other == end) by {
                    if other < end {
                        assert(!stands_at(buf@, mark@, other));
                    } else if other > end {
                        assert(!stands_at(buf@, blank_line(), end as int));
                    }
                }
            }
        }
        return None;
    }
    let body = lossy_text(vstd::slice::slice_subrange(buf, end + 4, end + 4 + length));
    let request = RecordedRequest { method, path, headers, body };
    assert(is_whole(buf@, end as int));
    assert(is_request(request, buf@, end as int));
    Some(request)
}

// ---------------------------------------------------------------------------
// Laws
// ---------------------------------------------------------------------------

proof fn lemma_header_from(headers: Seq<(Seq<char>, Seq<char>)>, name: Seq<char>, k: int)
    requires
        0 <= k,
    ensures
        header_from(headers, name, k) matches Some(value) ==> exists|i: int|
            k <= i < headers.len() && (#[trigger] headers[i]).1 == value && text::lowered(
                headers[i].0,
            ) == text::lowered(name) && forall|j: int|
                k <= j < i ==> text::lowered((#[trigger] headers[j]).0) != text::lowered(name),
        header_from(headers, name, k) is None ==> forall|j: int|
            k <= j < headers.len() ==> text::lowered((#[trigger] headers[j]).0) != text::lowered(
                name,
            ),
    decreases headers.len() - k,
{
    if k < headers.len() {
        if text::lowered(headers[k].0) == text::lowered(name) {
            assert(headers[k].1 == header_from(headers, name, k)->0);
        } else {
            lemma_header_from(headers, name, k + 1);
            if let Some(value) = header_from(headers, name, k) {
                let i = choose|i: int|
                    k + 1 <= i < headers.len() && (#[trigger] headers[i]).1 == value
                        && text::lowered(headers[i].0) == text::lowered(name) && forall|j: int|
                        k + 1 <= j < i ==> text::lowered((#[trigger] headers[j]).0)
                            != text::lowered(name);
                assert(headers[i].1 == value);
            }
        }
    }
}

/// A header is found by its name in capitals or small letters: the first of
/// that name, and none exactly where there is none.
pub proof fn law_headers_are_found_by_name(headers: Seq<(Seq<char>, Seq<char>)>, name: Seq<char>)
    ensures
        header_from(headers, text::lowered(name), 0) == header_from(headers, name, 0),
        header_from(headers, name, 0) matches Some(value) ==> exists|i: int|
            0 <= i < headers.len() && (#[trigger] headers[i]).1 == value && text::lowered(
                headers[i].0,
            ) == text::lowered(name) && forall|j: int|
                0 <= j < i ==> text::lowered((#[trigger] headers[j]).0) != text::lowered(name),
        header_from(headers, name, 0) is None ==> forall|j: int|
            0 <= j < headers.len() ==> text::lowered((#[trigger] headers[j]).0) != text::lowered(
                name,
            ),
{
    lemma_header_from(headers, name, 0);
    text::law_lower_case_changes_capitals_only(name);
    lemma_same_name(headers, text::lowered(name), name, 0);
}

proof fn lemma_same_name(
    headers: Seq<(Seq<char>, Seq<char>)>,
    a: Seq<char>,
    b: Seq<char>,
    k: int,
)
    requires
        text::lowered(a) == text::lowered(b),
    ensures
        header_from(headers, a, k) == header_from(headers, b, k),
    decreases headers.len() - k,
{
    if k < headers.len() {
        lemma_same_name(headers, a, b, k + 1);
    }
}

/// A line of a head is a header where it has a colon: the name before the
/// first one and the value behind it, without the white space round them. A
/// line without one says nothing.
pub proof fn law_header_lines_part_at_the_colon(
    lines: Seq<Seq<char>>,
    name: Seq<char>,
    value: Seq<char>,
    other: Seq<char>,
)
    requires
        !name.contains(':'),
        !other.contains(':'),
    ensures
        headers_in(lines.push(name + seq![':'] + value), lines.len() as int + 1) == headers_in(
            lines,
            lines.len() as int,
        ).push((text::trim(name), text::trim(value))),
        headers_in(lines.push(other), lines.len() as int + 1) == headers_in(
            lines,
            lines.len() as int,
        ),
        headers_in(lines, 0).len() == 0,
{
    let n = lines.len() as int;
    let line = name + seq![':'] + value;
    lemma_headers_prefix(lines, line, n);
    lemma_headers_prefix(lines, other, n);
    assert(lines.push(line)[n] == line);
    assert(lines.push(other)[n] == other);
    assert forall|j: int| 0 <= j < name.len() implies line[j] != ':' by {
        assert(name.contains(name[j]));
        assert(line[j] == name[j]);
    }
    text::lemma_first_char_is(line, ':', name.len() as int);
    assert(line.take(name.len() as int) =~= name);
    assert(line.skip(name.len() as int + 1) =~= value);
    assert forall|j: int| 0 <= j < other.len() implies other[j] != ':' by {
        assert(other.contains(other[j]));
    }
    text::lemma_first_char_is(other, ':', other.len() as int);
}

proof fn lemma_headers_prefix(lines: Seq<Seq<char>>, line: Seq<char>, k: int)
    requires
        0 <= k <= lines.len(),
    ensures
        headers_in(lines.push(line), k) == headers_in(lines, k),
    decreases k,
{
    if k > 0 {
        lemma_headers_prefix(lines, line, k - 1);
        assert(lines.push(line)[k - 1] == lines[k - 1]);
    }
}

/// The length of a body is what the last header of that name says, zero where
/// it says no number or there is none.
pub proof fn law_lengths_come_from_the_last_header(
    headers: Seq<(Seq<char>, Seq<char>)>,
    name: Seq<char>,
    value: Seq<char>,
    n: nat,
)
    requires
        n <= usize::MAX,
    ensures
        text::lowered(name) == "content-length"@ ==> length_in(
            headers.push((name, text::decimal(n))),
        ) == n,
        text::lowered(name) == "content-length"@ && text::parse_number(
            value,
            usize::MAX as nat,
        ) is None ==> length_in(headers.push((name, value))) == 0,
        text::lowered(name) != "content-length"@ ==> length_in(headers.push((name, value)))
            == length_in(headers),
        length_in(Seq::empty()) == 0,
{
    text::law_decimal_is_read_back(n, usize::MAX as nat);
    assert(headers.push((name, value)).drop_last() =~= headers);
    assert(headers.push((name, text::decimal(n))).drop_last() =~= headers);
}

proof fn lemma_word_end(word: Seq<char>, rest: Seq<char>)
    requires
        forall|i: int| #![trigger word[i]]
            0 <= i < word.len() ==> !text::is_white_space(word[i]),
        rest.len() > 0 ==> text::is_white_space(rest[0]),
    ensures
        word_end(word + rest) == word.len(),
    decreases word.len(),
{
    let all = word + rest;
    if word.len() > 0 {
        assert(all.drop_first() =~= word.drop_first() + rest);
        assert forall|i: int| #![trigger word.drop_first()[i]]
            0 <= i < word.drop_first().len() implies !text::is_white_space(
            word.drop_first()[i],
        ) by {
            assert(word.drop_first()[i] == word[i + 1]);
        }
        lemma_word_end(word.drop_first(), rest);
    } else {
        assert(all =~= rest);
    }
}

/// The first word of a text is what stands between white space in front and
/// the next white space, and the rest begins there.
pub proof fn law_words_stand_between_white_space(word: Seq<char>, rest: Seq<char>)
    requires
        word.len() > 0,
        forall|i: int| #![trigger word[i]]
            0 <= i < word.len() ==> !text::is_white_space(word[i]),
        rest.len() > 0 ==> text::is_white_space(rest[0]),
    ensures
        first_word(word + rest) == (word, rest),
        first_word(seq![' '] + word + rest) == (word, rest),
{
    let all = word + rest;
    lemma_word_end(word, rest);
    assert(!text::is_white_space(all[0]));
    assert(text::trim_start(all) == all);
    assert(all.take(word.len() as int) =~= word);
    assert(all.skip(word.len() as int) =~= rest);
    let spaced = seq![' '] + word + rest;
    assert(spaced.drop_first() =~= all);
    assert(text::is_white_space(spaced[0]));
    assert(text::trim_start(spaced) == text::trim_start(all));
}

/// The head of a request: its first line holds the method and the path, and
/// the lines behind it are the headers.
pub proof fn law_heads_hold_method_path_and_headers(
    method: Seq<char>,
    path: Seq<char>,
    tail: Seq<char>,
    others: Seq<Seq<char>>,
    head: Seq<char>,
)
    requires
        method.len() > 0 && path.len() > 0,
        forall|i: int| #![trigger method[i]]
            0 <= i < method.len() ==> !text::is_white_space(method[i]),
        forall|i: int| #![trigger path[i]] 0 <= i < path.len() ==> !text::is_white_space(path[i]),
        tail.len() > 0 ==> text::is_white_space(tail[0]),
        text::lines(head) == seq![method + seq![' '] + path + tail] + others,
    ensures
        head_of(head).method == method,
        head_of(head).path == path,
        head_of(head).headers == headers_in(others, others.len() as int),
{
    let first = method + seq![' '] + path + tail;
    let rest = seq![' '] + path + tail;
    assert(first =~= method + rest);
    assert(text::is_white_space(' '));
    law_words_stand_between_white_space(method, rest);
    law_words_stand_between_white_space(path, tail);
    let lines = text::lines(head);
    assert(lines[0] == first);
    assert(lines.drop_first() =~= others);
}

/// A request is whole where its head is ended by two line ends and as many
/// bytes follow as it says; its body is those bytes and no more.
pub proof fn law_bodies_are_as_long_as_told(r: RecordedRequest, buf: Seq<u8>, end: int)
    requires
        is_whole(buf, end),
        is_request(r, buf, end),
    ensures
        0 <= end && end + 4 <= buf.len(),
        buf[end] == 13 && buf[end + 1] == 10 && buf[end + 2] == 13 && buf[end + 3] == 10,
        ({
            let length = length_in(text::pairs(r.headers@)) as int;
            &&& end + 4 + length <= buf.len()
            &&& r.body@ == text::lossy(buf.subrange(end + 4, end + 4 + length))
        }),
{
    let found = buf.subrange(end, end + 4);
    assert(found == blank_line());
    assert(found[0] == buf[end] && found[1] == buf[end + 1] && found[2] == buf[end + 2] && found[3]
        == buf[end + 3]);
}

} // verus!
