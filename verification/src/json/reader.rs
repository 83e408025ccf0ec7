//! Reading a document into a tree that keeps its members as they stand, in
//! order and with repeated ones.
//!
//! Where a value ends, and what a string literal holds, `serde_json` says;
//! what stands between the values is read here.

use crate::json;
use crate::json::{array, object, Json, Tree};
use crate::text;
use crate::text::{owned, str_eq};
use vstd::prelude::*;

verus! {

// ---------------------------------------------------------------------------
// Values
// ---------------------------------------------------------------------------

/// The value that a text begins with, and what follows it, as `serde_json`
/// tells them apart.
pub uninterp spec fn value_split(text: Seq<char>) -> Option<(Seq<char>, Seq<char>)>;

/// The text that `serde_json` reads in a string literal.
pub uninterp spec fn literal_value(text: Seq<char>) -> Option<Seq<char>>;

/// What two optional texts stand for.
pub open spec fn split_view(r: Option<(String, String)>) -> Option<(Seq<char>, Seq<char>)> {
    match r {
        Some((value, rest)) => Some((value@, rest@)),
        None => None,
    }
}

/// Whether a value may end before `rest`.
pub open spec fn ends_value(rest: Seq<char>) -> bool {
    rest.len() == 0 || rest[0] == ',' || rest[0] == ':' || rest[0] == ']' || rest[0] == '}'
}

/// Whether a text is that of a tree with `rest` behind it.
pub open spec fn begins_with_tree(
    text: Seq<char>,
    t: Tree,
    depth: nat,
    rest: Seq<char>,
) -> bool {
    text == json::text_of(t) + rest && json::is_readable(t, depth) && ends_value(rest)
}

/// Trusted: `serde_json::StreamDeserializer` reads the first value of a text,
/// as a `serde::de::IgnoredAny`, and `byte_offset` tells where it ends. There
/// is none where the text begins with no value. The two parts make up the
/// text, and the text of a tree is found whole. The grammar is left unsaid.
#[verifier::external_body]
fn first_value(text: &str) -> (r: Option<(String, String)>)
    ensures
        split_view(r) == value_split(text@),
        r matches Some((value, rest)) ==> value@ + rest@ == text@ && value@.len() > 0,
        forall|t: Tree, depth: nat, rest: Seq<char>| #[trigger]
            begins_with_tree(text@, t, depth, rest) ==> split_view(r) == Some(
                (json::text_of(t), rest),
            ),
{
    let mut values = serde_json::Deserializer::from_str(text).into_iter::<serde::de::IgnoredAny>();
    values.next()?.ok()?;
    let (value, rest) = text.split_at(values.byte_offset());
    Some((value.to_string(), rest.to_string()))
}

/// Trusted: `serde_json::from_str` reads a string literal as a `String`. There
/// is none where the text is something else. A literal that was written of a
/// text reads as that text.
#[verifier::external_body]
fn literal(text: &str) -> (r: Option<String>)
    ensures
        text::opt_text(r) == literal_value(text@),
        forall|s: Seq<char>| text@ == #[trigger] json::quoted(s) ==> text::opt_text(r) == Some(s),
{
    serde_json::from_str::<String>(text).ok()
}

// ---------------------------------------------------------------------------
// White space
// ---------------------------------------------------------------------------

/// Whether a character is white space between values.
pub open spec fn is_space(c: char) -> bool {
    c == ' ' || c == '\n' || c == '\t' || c == '\r'
}

/// A text without the white space at its start.
pub open spec fn skip_space(s: Seq<char>) -> Seq<char>
    decreases s.len(),
{
    if s.len() > 0 && is_space(s[0]) {
        skip_space(s.skip(1))
    } else {
        s
    }
}

proof fn lemma_skip_space(s: Seq<char>)
    ensures
        skip_space(s).len() <= s.len(),
    decreases s.len(),
{
    if s.len() > 0 && is_space(s[0]) {
        lemma_skip_space(s.skip(1));
    }
}

/// A text without the white space at its start.
fn without_space(s: &str) -> (r: &str)
    ensures
        r@ == skip_space(s@),
        r@.len() <= s@.len(),
{
    proof {
        lemma_skip_space(s@);
    }
    let n: usize = s.unicode_len();
    let mut i: usize = 0;
    assert(s@.skip(0) =~= s@);
    while i < n
        invariant
            i <= n,
            n == s@.len(),
            skip_space(s@) == skip_space(s@.skip(i as int)),
            skip_space(s@).len() <= s@.len(),
        decreases n - i,
    {
        let c = s.get_char(i);
        if c != ' ' && c != '\n' && c != '\t' && c != '\r' {
            let r = s.substring_char(i, n);
            assert(r@ =~= s@.skip(i as int));
            return r;
        }
        assert(s@.skip(i as int).skip(1) =~= s@.skip(i + 1));
        i = i + 1;
    }
    let r = s.substring_char(n, n);
    assert(r@ =~= s@.skip(n as int));
    r
}

/// Whether a text begins with a character.
fn starts(s: &str, c: char) -> (r: bool)
    ensures
        r == (s@.len() > 0 && s@[0] == c),
{
    s.unicode_len() > 0 && s.get_char(0) == c
}

/// A text without its first character.
fn behind_first(s: &str) -> (r: &str)
    requires
        s@.len() > 0,
    ensures
        r@ == s@.skip(1),
{
    let r = s.substring_char(1, s.unicode_len());
    assert(r@ =~= s@.skip(1));
    r
}

// ---------------------------------------------------------------------------
// The parts of an object or an array
// ---------------------------------------------------------------------------

/// The name of a member and what stands behind its colon.
pub open spec fn key_split(rest: Seq<char>) -> Option<(Seq<char>, Seq<char>)> {
    match value_split(rest) {
        Some((key, tail)) => match literal_value(key) {
            Some(name) => {
                let t = skip_space(tail);
                if t.len() > 0 && t[0] == ':' {
                    Some((name, t.skip(1)))
                } else {
                    None
                }
            },
            None => None,
        },
        None => None,
    }
}

/// The first part, with its name where parts have one, and what follows it.
pub open spec fn part_split(rest: Seq<char>, named: bool) -> Option<
    (Seq<char>, Seq<char>, Seq<char>),
> {
    let key = if named {
        key_split(rest)
    } else {
        Some((Seq::empty(), rest))
    };
    match key {
        Some((name, after)) => match value_split(after) {
            Some((value, tail)) => Some((name, value, skip_space(tail))),
            None => None,
        },
        None => None,
    }
}

/// The bracket before parts.
pub open spec fn opening(named: bool) -> char {
    if named {
        '{'
    } else {
        '['
    }
}

/// The bracket behind parts.
pub open spec fn closing(named: bool) -> char {
    if named {
        '}'
    } else {
        ']'
    }
}

/// The parts that stand before a closing bracket, which ends the text.
pub open spec fn parts_from(rest: Seq<char>, named: bool) -> Option<Seq<(Seq<char>, Seq<char>)>>
    decreases rest.len(),
{
    match part_split(rest, named) {
        Some((name, value, t)) => if t.len() == 0 || t.len() >= rest.len() {
            None
        } else if t[0] == ',' {
            match parts_from(t.skip(1), named) {
                Some(more) => Some(seq![(name, value)] + more),
                None => None,
            }
        } else if t[0] == closing(named) && skip_space(t.skip(1)).len() == 0 {
            Some(seq![(name, value)])
        } else {
            None
        },
        None => None,
    }
}

/// The members of an object, or the elements of an array, as texts in order.
pub open spec fn parts_in(text: Seq<char>, named: bool) -> Option<Seq<(Seq<char>, Seq<char>)>> {
    let t = skip_space(text);
    if t.len() == 0 || t[0] != opening(named) {
        None
    } else {
        let inner = skip_space(t.skip(1));
        if inner.len() > 0 && inner[0] == closing(named) {
            if skip_space(inner.skip(1)).len() == 0 {
                Some(Seq::empty())
            } else {
                None
            }
        } else {
            parts_from(inner, named)
        }
    }
}

/// A part as it is written.
pub open spec fn part_text(p: (Seq<char>, Tree), named: bool) -> Seq<char> {
    if named {
        json::quoted(p.0) + seq![':'] + json::text_of(p.1)
    } else {
        json::text_of(p.1)
    }
}

/// Whether a text is that of a part with `rest` behind it.
pub open spec fn begins_with_part(
    text: Seq<char>,
    p: (Seq<char>, Tree),
    named: bool,
    depth: nat,
    rest: Seq<char>,
) -> bool {
    &&& text == part_text(p, named) + rest
    &&& json::is_readable(p.1, depth)
    &&& rest.len() > 0
    &&& rest[0] == ',' || rest[0] == closing(named)
    &&& !named ==> p.0 == Seq::<char>::empty()
}

/// The parts from the `k`-th on as they are written.
pub open spec fn tail_text(ps: Seq<(Seq<char>, Tree)>, named: bool, k: int) -> Seq<char>
    decreases ps.len() - k,
{
    if k >= ps.len() {
        Seq::empty()
    } else if k == ps.len() - 1 {
        part_text(ps[k], named)
    } else {
        part_text(ps[k], named) + seq![','] + tail_text(ps, named, k + 1)
    }
}

/// The texts of parts.
pub open spec fn written_parts(ps: Seq<(Seq<char>, Tree)>) -> Seq<(Seq<char>, Seq<char>)> {
    Seq::new(ps.len(), |i: int| (ps[i].0, json::text_of(ps[i].1)))
}

/// Whether all parts are read back.
pub open spec fn are_readable(ps: Seq<(Seq<char>, Tree)>, named: bool, depth: nat) -> bool {
    forall|i: int|
        0 <= i < ps.len() ==> json::is_readable((#[trigger] ps[i]).1, depth) && (!named ==> ps[i].0
            == Seq::<char>::empty())
}

/// Whether a text is that of parts between their brackets.
pub open spec fn is_written_parts(
    text: Seq<char>,
    ps: Seq<(Seq<char>, Tree)>,
    named: bool,
    depth: nat,
) -> bool {
    text == seq![opening(named)] + tail_text(ps, named, 0) + seq![closing(named)] && are_readable(
        ps,
        named,
        depth,
    )
}

/// The text of a tree begins with no white space and no closing bracket.
proof fn lemma_first_char(t: Tree, depth: nat)
    requires
        json::is_readable(t, depth),
    ensures
        json::text_of(t).len() > 0,
        !is_space(json::text_of(t)[0]),
        json::text_of(t)[0] != ']',
        json::text_of(t)[0] != '}',
        t is Number ==> text::is_digit(json::text_of(t)[0]) || json::text_of(t)[0] == '-',
{
    match t {
        Tree::Null => reveal_strlit("null"),
        Tree::Bool(_) => {
            reveal_strlit("true");
            reveal_strlit("false");
        },
        Tree::Number(s) => {
            if exists|n: nat| n <= u64::MAX && s == #[trigger] text::decimal(n) {
                let n = choose|n: nat| n <= u64::MAX && s == #[trigger] text::decimal(n);
                lemma_decimal_first(n);
            }
        },
        _ => {},
    }
}

proof fn lemma_decimal_first(n: nat)
    ensures
        text::decimal(n).len() > 0,
        text::is_digit(text::decimal(n)[0]),
    decreases n,
{
    if n >= 10 {
        lemma_decimal_first(n / 10);
    }
}

/// The name of a member and what stands behind its colon.
fn take_key(rest: &str) -> (r: Option<(String, String)>)
    ensures
        split_view(r) == key_split(rest@),
        r matches Some((_, after)) ==> after@.len() < rest@.len(),
        forall|name: Seq<char>, after: Seq<char>|
            rest@ == #[trigger] (json::quoted(name) + (seq![':'] + after)) ==> split_view(r)
                == Some((name, after)),
{
    let (key, tail) = match first_value(rest) {
        Some((key, tail)) => (key, tail),
        None => {
            assert forall|name: Seq<char>, after: Seq<char>|
                rest@ == #[trigger] (json::quoted(name) + (seq![':'] + after)) implies false by {
                assert(json::is_readable(Tree::Text(name), 0));
                assert(begins_with_tree(rest@, Tree::Text(name), 0, seq![':'] + after));
            }
            return None;
        },
    };
    proof {
        assert(key@.len() + tail@.len() == rest@.len());
        assert forall|name: Seq<char>, after: Seq<char>|
            rest@ == #[trigger] (json::quoted(name) + (seq![':'] + after)) implies key@
            == json::quoted(name) && tail@ == seq![':'] + after by {
            assert(json::is_readable(Tree::Text(name), 0));
            assert(begins_with_tree(rest@, Tree::Text(name), 0, seq![':'] + after));
        }
        assert forall|after: Seq<char>| tail@ == #[trigger] (seq![':'] + after) implies skip_space(
            tail@,
        ) == tail@ && tail@.skip(1) == after by {
            assert(tail@.skip(1) =~= after);
        }
    }
    match literal(key.as_str()) {
        Some(name) => {
            let t = without_space(tail.as_str());
            if starts(t, ':') {
                let after = owned(behind_first(t));
                Some((name, after))
            } else {
                None
            }
        },
        None => None,
    }
}

/// What three optional texts stand for.
pub open spec fn part_view(r: Option<(String, String, String)>) -> Option<
    (Seq<char>, Seq<char>, Seq<char>),
> {
    match r {
        Some((name, value, rest)) => Some((name@, value@, rest@)),
        None => None,
    }
}

/// The first part and what follows it.
fn take_part(rest: &str, named: bool) -> (r: Option<(String, String, String)>)
    ensures
        part_view(r) == part_split(rest@, named),
        r matches Some((_, _, t)) ==> t@.len() < rest@.len(),
        forall|p: (Seq<char>, Tree), depth: nat, x: Seq<char>| #[trigger]
            begins_with_part(rest@, p, named, depth, x) ==> part_view(r) == Some(
                (p.0, json::text_of(p.1), x),
            ),
{
    proof {
        assert forall|p: (Seq<char>, Tree), depth: nat, x: Seq<char>| #[trigger]
            begins_with_part(rest@, p, named, depth, x) implies (named ==> rest@ == json::quoted(
            p.0,
        ) + (seq![':'] + (json::text_of(p.1) + x))) && begins_with_tree(
            json::text_of(p.1) + x,
            p.1,
            depth,
            x,
        ) && skip_space(x) == x by {
            if named {
                assert(rest@ =~= json::quoted(p.0) + (seq![':'] + (json::text_of(p.1) + x)));
            }
        }
    }
    let (name, after) = if named {
        match take_key(rest) {
            Some((name, after)) => (name, after),
            None => return None,
        }
    } else {
        let name = String::new();
        assert(name@ =~= Seq::<char>::empty());
        (name, owned(rest))
    };
    match first_value(after.as_str()) {
        Some((value, tail)) => {
            assert(value@.len() + tail@.len() == after@.len());
            let t = owned(without_space(tail.as_str()));
            Some((name, value, t))
        },
        None => None,
    }
}

/// Parts with others behind them.
pub open spec fn with_parts(
    done: Seq<(Seq<char>, Seq<char>)>,
    more: Option<Seq<(Seq<char>, Seq<char>)>>,
) -> Option<Seq<(Seq<char>, Seq<char>)>> {
    match more {
        Some(more) => Some(done + more),
        None => None,
    }
}

/// What the parts of an object or an array stand for.
pub open spec fn opt_pairs(r: Option<Vec<(String, String)>>) -> Option<
    Seq<(Seq<char>, Seq<char>)>,
> {
    match r {
        Some(v) => Some(text::pairs(v@)),
        None => None,
    }
}

/// What stands behind the `k`-th part.
spec fn behind_part(ps: Seq<(Seq<char>, Tree)>, named: bool, k: int) -> Seq<char> {
    if k + 1 < ps.len() {
        seq![','] + (tail_text(ps, named, k + 1) + seq![closing(named)])
    } else {
        seq![closing(named)]
    }
}

proof fn lemma_tail_text(ps: Seq<(Seq<char>, Tree)>, named: bool, depth: nat, k: int)
    requires
        0 <= k < ps.len(),
        are_readable(ps, named, depth),
    ensures
        begins_with_part(
            tail_text(ps, named, k) + seq![closing(named)],
            ps[k],
            named,
            depth,
            behind_part(ps, named, k),
        ),
        behind_part(ps, named, k).skip(1) == (if k + 1 < ps.len() {
            tail_text(ps, named, k + 1) + seq![closing(named)]
        } else {
            Seq::empty()
        }),
{
    let behind = behind_part(ps, named, k);
    assert(tail_text(ps, named, k) + seq![closing(named)] =~= part_text(ps[k], named) + behind);
    assert(behind.skip(1) =~= (if k + 1 < ps.len() {
        tail_text(ps, named, k + 1) + seq![closing(named)]
    } else {
        Seq::empty()
    }));
}

/// The members of an object, or the elements of an array, as texts in order.
pub fn parts_of(text: &str, named: bool) -> (r: Option<Vec<(String, String)>>)
    ensures
        opt_pairs(r) == parts_in(text@, named),
        forall|ps: Seq<(Seq<char>, Tree)>, depth: nat| #[trigger]
            is_written_parts(text@, ps, named, depth) ==> opt_pairs(r) == Some(written_parts(ps)),
{
    let open = if named {
        '{'
    } else {
        '['
    };
    let close = if named {
        '}'
    } else {
        ']'
    };
    let start = without_space(text);
    proof {
        assert forall|ps: Seq<(Seq<char>, Tree)>, depth: nat| #[trigger]
            is_written_parts(text@, ps, named, depth) implies start@ == text@ && start@.len() > 0
            && start@[0] == open && start@.skip(1) == tail_text(ps, named, 0) + seq![
            close,
        ] && skip_space(start@.skip(1)) == start@.skip(1) && (ps.len() == 0 <==> start@.skip(
            1,
        )[0] == close) by {
            let inner = tail_text(ps, named, 0) + seq![close];
            assert(start@.skip(1) =~= inner);
            if ps.len() > 0 {
                lemma_tail_text(ps, named, depth, 0);
                lemma_first_char(ps[0].1, depth);
                assert(inner[0] == part_text(ps[0], named)[0]);
            } else {
                assert(inner =~= seq![close]);
            }
        }
    }
    if !starts(start, open) {
        return None;
    }
    let inner = without_space(behind_first(start));
    let mut done: Vec<(String, String)> = Vec::new();
    assert(text::pairs(done@) =~= Seq::<(Seq<char>, Seq<char>)>::empty());
    if starts(inner, close) {
        let after = without_space(behind_first(inner));
        proof {
            assert forall|ps: Seq<(Seq<char>, Tree)>, depth: nat| #[trigger]
                is_written_parts(text@, ps, named, depth) implies after@.len() == 0
                && written_parts(ps) == text::pairs(done@) by {
                assert(inner@ =~= seq![close]);
                assert(written_parts(ps) =~= text::pairs(done@));
            }
        }
        return if after.unicode_len() == 0 {
            Some(done)
        } else {
            None
        };
    }
    let mut rest = owned(inner);
    let ghost goal = parts_in(text@, named);
    proof {
        assert(text::pairs(done@) + parts_from(rest@, named).unwrap_or(Seq::empty())
            =~= parts_from(rest@, named).unwrap_or(Seq::empty()));
        assert(with_parts(text::pairs(done@), parts_from(rest@, named)) == goal);
        assert forall|ps: Seq<(Seq<char>, Tree)>, depth: nat| #[trigger]
            is_written_parts(text@, ps, named, depth) implies text::pairs(done@) == written_parts(
            ps,
        ).take(done@.len() as int) by {
            assert(text::pairs(done@) =~= written_parts(ps).take(0));
        }
    }
    loop
        invariant
            close == closing(named),
            goal == parts_in(text@, named),
            with_parts(text::pairs(done@), parts_from(rest@, named)) == goal,
            forall|ps: Seq<(Seq<char>, Tree)>, depth: nat| #[trigger]
                is_written_parts(text@, ps, named, depth) ==> done@.len() < ps.len()
                    && text::pairs(done@) == written_parts(ps).take(done@.len() as int) && rest@
                    == tail_text(ps, named, done@.len() as int) + seq![close],
        decreases rest@.len(),
    {
        let ghost k = done@.len() as int;
        let ghost was = text::pairs(done@);
        let ghost at = rest@;
        let taken = take_part(rest.as_str(), named);
        proof {
            assert forall|ps: Seq<(Seq<char>, Tree)>, depth: nat| #[trigger]
                is_written_parts(text@, ps, named, depth) implies part_view(taken) == Some(
                (ps[k].0, json::text_of(ps[k].1), behind_part(ps, named, k)),
            ) && behind_part(ps, named, k).skip(1) == (if k + 1 < ps.len() {
                tail_text(ps, named, k + 1) + seq![close]
            } else {
                Seq::empty()
            }) by {
                lemma_tail_text(ps, named, depth, k);
            }
        }
        let (name, value, t) = match taken {
            Some((name, value, t)) => (name, value, t),
            None => return None,
        };
        let ghost one = (name@, value@);
        done.push((name, value));
        proof {
            assert(text::pairs(done@) =~= was.push(one));
            assert forall|ps: Seq<(Seq<char>, Tree)>, depth: nat| #[trigger]
                is_written_parts(text@, ps, named, depth) implies text::pairs(done@)
                == written_parts(ps).take(k + 1) by {
                assert(text::pairs(done@) =~= written_parts(ps).take(k + 1));
            }
        }
        if starts(t.as_str(), ',') {
            rest = owned(behind_first(t.as_str()));
            proof {
                let more = parts_from(rest@, named);
                if let Some(more) = more {
                    assert(was + (seq![one] + more) =~= was.push(one) + more);
                }
            }
        } else if starts(t.as_str(), close) {
            let after = without_space(behind_first(t.as_str()));
            proof {
                assert(was + seq![one] =~= was.push(one));
                assert forall|ps: Seq<(Seq<char>, Tree)>, depth: nat| #[trigger]
                    is_written_parts(text@, ps, named, depth) implies text::pairs(done@)
                    == written_parts(ps) && after@.len() == 0 by {
                    assert(written_parts(ps).take(k + 1) =~= written_parts(ps));
                }
            }
            return if after.unicode_len() == 0 {
                Some(done)
            } else {
                None
            };
        } else {
            return None;
        }
    }
}

// ---------------------------------------------------------------------------
// Trees
// ---------------------------------------------------------------------------

/// The values of members.
pub open spec fn values_of(members: Seq<(Seq<char>, Tree)>) -> Seq<Tree> {
    Seq::new(members.len(), |i: int| members[i].1)
}

/// The tree of the text of a value, arrays and objects being at most `depth`
/// deep.
pub open spec fn tree_in(text: Seq<char>, depth: nat) -> Option<Tree>
    decreases depth, 0nat,
{
    let t = skip_space(text);
    if t == "null"@ {
        Some(Tree::Null)
    } else if t == "true"@ {
        Some(Tree::Bool(true))
    } else if t == "false"@ {
        Some(Tree::Bool(false))
    } else if t.len() == 0 {
        None
    } else if t[0] == '"' {
        match literal_value(t) {
            Some(s) => Some(Tree::Text(s)),
            None => None,
        }
    } else if t[0] == '{' || t[0] == '[' {
        match parts_in(t, t[0] == '{') {
            Some(parts) => if depth == 0 {
                None
            } else {
                match trees_in(parts, (depth - 1) as nat) {
                    Some(members) => Some(
                        if t[0] == '{' {
                            Tree::Object(members)
                        } else {
                            Tree::Array(values_of(members))
                        },
                    ),
                    None => None,
                }
            },
            None => None,
        }
    } else if text::is_digit(t[0]) || t[0] == '-' {
        Some(Tree::Number(t))
    } else {
        None
    }
}

/// The trees of the texts of parts.
pub open spec fn trees_in(parts: Seq<(Seq<char>, Seq<char>)>, depth: nat) -> Option<
    Seq<(Seq<char>, Tree)>,
>
    decreases depth, parts.len() + 1,
{
    if parts.len() == 0 {
        Some(Seq::empty())
    } else {
        match (trees_in(parts.drop_last(), depth), tree_in(parts.last().1, depth)) {
            (Some(before), Some(t)) => Some(before.push((parts.last().0, t))),
            _ => None,
        }
    }
}

/// Whether a text is that of a tree.
pub open spec fn is_written(text: Seq<char>, t: Tree, depth: nat) -> bool {
    text == json::text_of(t) && json::is_readable(t, depth)
}

/// Elements as parts without a name.
pub open spec fn unnamed(items: Seq<Tree>) -> Seq<(Seq<char>, Tree)> {
    Seq::new(items.len(), |i: int| (Seq::<char>::empty(), items[i]))
}

proof fn lemma_members_text(members: Seq<(Seq<char>, Tree)>, k: nat)
    requires
        k <= members.len(),
    ensures
        json::members_text(members, members.len()) == json::members_text(members, k) + (if 0 < k
            && k < members.len() {
            seq![',']
        } else {
            Seq::empty()
        }) + tail_text(members, true, k as int),
    decreases members.len() - k,
{
    let n = members.len();
    if k == n {
        assert(json::members_text(members, n) + Seq::<char>::empty() + Seq::<char>::empty()
            =~= json::members_text(members, n));
    } else {
        lemma_members_text(members, k + 1);
        let one = part_text(members[k as int], true);
        let before = json::members_text(members, k);
        assert(json::members_text(members, k + 1) == (if k == 0 {
            one
        } else {
            before + seq![','] + one
        }));
        if k == 0 {
            assert(before =~= Seq::<char>::empty());
        }
        assert(json::members_text(members, n) =~= before + (if 0 < k {
            seq![',']
        } else {
            Seq::empty()
        }) + tail_text(members, true, k as int));
    }
}

proof fn lemma_items_text(items: Seq<Tree>, k: nat)
    requires
        k <= items.len(),
    ensures
        json::items_text(items, items.len()) == json::items_text(items, k) + (if 0 < k && k
            < items.len() {
            seq![',']
        } else {
            Seq::empty()
        }) + tail_text(unnamed(items), false, k as int),
    decreases items.len() - k,
{
    let n = items.len();
    let ps = unnamed(items);
    if k == n {
        assert(json::items_text(items, n) + Seq::<char>::empty() + Seq::<char>::empty()
            =~= json::items_text(items, n));
    } else {
        lemma_items_text(items, k + 1);
        let one = part_text(ps[k as int], false);
        let before = json::items_text(items, k);
        assert(one == json::text_of(items[k as int]));
        assert(json::items_text(items, k + 1) == (if k == 0 {
            one
        } else {
            before + seq![','] + one
        }));
        if k == 0 {
            assert(before =~= Seq::<char>::empty());
        }
        assert(json::items_text(items, n) =~= before + (if 0 < k {
            seq![',']
        } else {
            Seq::empty()
        }) + tail_text(ps, false, k as int));
    }
}

/// The text of an object or an array is that of its parts.
pub proof fn lemma_parts_are_written(t: Tree, depth: nat)
    requires
        json::is_readable(t, depth),
    ensures
        t matches Tree::Object(members) ==> depth > 0 && is_written_parts(
            json::text_of(t),
            members,
            true,
            (depth - 1) as nat,
        ),
        t matches Tree::Array(items) ==> depth > 0 && is_written_parts(
            json::text_of(t),
            unnamed(items),
            false,
            (depth - 1) as nat,
        ),
{
    match t {
        Tree::Object(members) => {
            lemma_members_text(members, 0);
            assert(json::members_text(members, 0) =~= Seq::<char>::empty());
            assert(json::members_text(members, members.len()) =~= tail_text(members, true, 0));
        },
        Tree::Array(items) => {
            lemma_items_text(items, 0);
            assert(json::items_text(items, 0) =~= Seq::<char>::empty());
            assert(json::items_text(items, items.len()) =~= tail_text(unnamed(items), false, 0));
        },
        _ => {},
    }
}

/// The tree of the text of a value; deeper ones than `depth` are not read.
/// The text of a tree is read as that tree.
pub fn tree_of(text: &str, depth: usize) -> (r: Option<Json>)
    ensures
        json::opt_tree(r) == tree_in(text@, depth as nat),
        forall|t: Tree| #[trigger]
            is_written(text@, t, depth as nat) ==> json::opt_tree(r) == Some(t),
    decreases depth, 0nat,
{
    let core = without_space(text);
    proof {
        reveal_strlit("null");
        reveal_strlit("true");
        reveal_strlit("false");
        assert forall|t: Tree| #[trigger] is_written(text@, t, depth as nat) implies core@ == text@
            && core@ == json::text_of(t) && core@.len() > 0 && (t is Null <==> core@ == "null"@)
            && (t == Tree::Bool(true) <==> core@ == "true"@) && (t == Tree::Bool(false) <==> core@
            == "false"@) && (t is Text <==> core@[0] == '"') && (t is Object <==> core@[0] == '{')
            && (t is Array <==> core@[0] == '[') && (t is Number ==> text::is_digit(core@[0])
            || core@[0] == '-') by {
            lemma_first_char(t, depth as nat);
        }
    }
    if str_eq(core, "null") {
        return Some(Json::Null);
    }
    if str_eq(core, "true") {
        return Some(Json::Bool(true));
    }
    if str_eq(core, "false") {
        return Some(Json::Bool(false));
    }
    if core.unicode_len() == 0 {
        return None;
    }
    let first = core.get_char(0);
    if first == '"' {
        return match literal(core) {
            Some(s) => Some(Json::Text(s)),
            None => None,
        };
    }
    if first == '{' || first == '[' {
        let named = first == '{';
        proof {
            assert forall|t: Tree| #[trigger] is_written(text@, t, depth as nat) implies depth > 0
                && is_written_parts(
                core@,
                if named {
                    t->Object_0
                } else {
                    unnamed(t->Array_0)
                },
                named,
                (depth - 1) as nat,
            ) by {
                lemma_parts_are_written(t, depth as nat);
            }
            lemma_skipped(text@);
        }
        let parts = match parts_of(core, named) {
            Some(parts) => parts,
            None => return None,
        };
        if depth == 0 {
            return None;
        }
        proof {
            assert forall|t: Tree| #[trigger] is_written(text@, t, depth as nat) implies are_texts_of(
                text::pairs(parts@),
                if named {
                    t->Object_0
                } else {
                    unnamed(t->Array_0)
                },
                (depth - 1) as nat,
            ) && (!named ==> values_of(unnamed(t->Array_0)) == t->Array_0) by {
                lemma_parts_are_written(t, depth as nat);
                let ps = if named {
                    t->Object_0
                } else {
                    unnamed(t->Array_0)
                };
                assert(is_written_parts(core@, ps, named, (depth - 1) as nat));
                assert forall|i: int| 0 <= i < ps.len() implies json::is_readable(
                    (#[trigger] ps[i]).1,
                    (depth - 1) as nat,
                ) by {
                }
                if !named {
                    assert(values_of(unnamed(t->Array_0)) =~= t->Array_0);
                }
            }
        }
        let members = match members_of(&parts, depth - 1) {
            Some(members) => members,
            None => return None,
        };
        if named {
            return Some(object(members));
        }
        return Some(elements(members));
    }
    if first == '-' || (first >= '0' && first <= '9') {
        Some(Json::Number(owned(core)))
    } else {
        None
    }
}

/// What is left has no white space at its start.
proof fn lemma_skipped(s: Seq<char>)
    ensures
        skip_space(skip_space(s)) == skip_space(s),
    decreases s.len(),
{
    if s.len() > 0 && is_space(s[0]) {
        lemma_skipped(s.skip(1));
    }
}

/// What optional members stand for.
pub open spec fn opt_members(r: Option<Vec<(String, Json)>>) -> Option<Seq<(Seq<char>, Tree)>> {
    match r {
        Some(v) => Some(json::members_view(v@)),
        None => None,
    }
}

proof fn lemma_trees_fail(parts: Seq<(Seq<char>, Seq<char>)>, depth: nat, k: int)
    requires
        0 <= k <= parts.len(),
        trees_in(parts.take(k), depth) is None,
    ensures
        trees_in(parts, depth) is None,
    decreases parts.len() - k,
{
    if k < parts.len() {
        assert(parts.take(k + 1).drop_last() =~= parts.take(k));
        lemma_trees_fail(parts, depth, k + 1);
    } else {
        assert(parts.take(k) =~= parts);
    }
}

/// Whether texts are those of parts that are read back.
pub open spec fn are_texts_of(
    texts: Seq<(Seq<char>, Seq<char>)>,
    ps: Seq<(Seq<char>, Tree)>,
    depth: nat,
) -> bool {
    texts == written_parts(ps) && forall|i: int|
        0 <= i < ps.len() ==> json::is_readable((#[trigger] ps[i]).1, depth)
}

/// The trees of the texts of parts.
fn members_of(parts: &Vec<(String, String)>, depth: usize) -> (r: Option<Vec<(String, Json)>>)
    ensures
        opt_members(r) == trees_in(text::pairs(parts@), depth as nat),
        forall|ps: Seq<(Seq<char>, Tree)>| #[trigger]
            are_texts_of(text::pairs(parts@), ps, depth as nat) ==> opt_members(r) == Some(ps),
    decreases depth, 1nat,
{
    let ghost all = text::pairs(parts@);
    let mut members: Vec<(String, Json)> = Vec::new();
    let mut k: usize = 0;
    proof {
        assert(all.take(0).len() == 0);
        assert(json::members_view(members@) =~= Seq::<(Seq<char>, Tree)>::empty());
        assert forall|ps: Seq<(Seq<char>, Tree)>| #[trigger]
            are_texts_of(all, ps, depth as nat) implies json::members_view(members@) == ps.take(
            0,
        ) by {
            assert(ps.take(0) =~= Seq::<(Seq<char>, Tree)>::empty());
        }
    }
    while k < parts.len()
        invariant
            k <= parts@.len(),
            all == text::pairs(parts@),
            trees_in(all.take(k as int), depth as nat) == Some(json::members_view(members@)),
            forall|ps: Seq<(Seq<char>, Tree)>| #[trigger]
                are_texts_of(all, ps, depth as nat) ==> ps.len() == all.len()
                    && json::members_view(members@) == ps.take(k as int),
        decreases parts@.len() - k,
    {
        proof {
            assert(all.take(k + 1).drop_last() =~= all.take(k as int));
            assert(all.take(k + 1).last() == (parts@[k as int].0@, parts@[k as int].1@));
            assert forall|ps: Seq<(Seq<char>, Tree)>| #[trigger]
                are_texts_of(all, ps, depth as nat) implies is_written(
                parts@[k as int].1@,
                ps[k as int].1,
                depth as nat,
            ) && ps[k as int].0 == parts@[k as int].0@ by {
                assert(all[k as int] == written_parts(ps)[k as int]);
                assert(json::is_readable(ps[k as int].1, depth as nat));
            }
        }
        match tree_of(parts[k].1.as_str(), depth) {
            Some(t) => {
                let ghost before = members@;
                let name = owned(parts[k].0.as_str());
                let ghost one = (name@, t@);
                members.push((name, t));
                proof {
                    assert(json::members_view(members@) =~= json::members_view(before).push(one));
                    assert forall|ps: Seq<(Seq<char>, Tree)>| #[trigger]
                        are_texts_of(all, ps, depth as nat) implies json::members_view(members@)
                        == ps.take(k + 1) by {
                        assert(is_written(parts@[k as int].1@, ps[k as int].1, depth as nat));
                        assert(json::members_view(members@) =~= ps.take(k + 1));
                    }
                }
            },
            None => {
                proof {
                    lemma_trees_fail(all, depth as nat, k + 1);
                }
                return None;
            },
        }
        k = k + 1;
    }
    proof {
        assert(all.take(k as int) =~= all);
        assert forall|ps: Seq<(Seq<char>, Tree)>| #[trigger]
            are_texts_of(all, ps, depth as nat) implies json::members_view(members@) == ps by {
            assert(ps.take(k as int) =~= ps);
        }
    }
    Some(members)
}

/// An array of the values of members.
fn elements(members: Vec<(String, Json)>) -> (r: Json)
    ensures
        r@ == Tree::Array(values_of(json::members_view(members@))),
{
    let ghost all = members@;
    let mut rest = members;
    let mut items: Vec<Json> = Vec::new();
    while rest.len() > 0
        invariant
            rest@.len() + items@.len() == all.len(),
            forall|i: int| 0 <= i < rest@.len() ==> #[trigger] rest@[i] == all[i],
            forall|i: int|
                0 <= i < items@.len() ==> #[trigger] items@[i] == all[all.len() - 1 - i].1,
        decreases rest@.len(),
    {
        let ghost n = rest@.len() - 1;
        assert(rest@[n] == all[n]);
        if let Some((_, value)) = rest.pop() {
            items.push(value);
        }
    }
    let items = in_reverse(items);
    assert(json::trees(items@) =~= values_of(json::members_view(all)));
    array(items)
}

/// Values in the opposite order.
fn in_reverse(values: Vec<Json>) -> (r: Vec<Json>)
    ensures
        r@.len() == values@.len(),
        forall|i: int|
            0 <= i < r@.len() ==> #[trigger] r@[i] == values@[values@.len() - 1 - i],
{
    let ghost all = values@;
    let mut rest = values;
    let mut r: Vec<Json> = Vec::new();
    while rest.len() > 0
        invariant
            rest@.len() + r@.len() == all.len(),
            forall|i: int| 0 <= i < rest@.len() ==> #[trigger] rest@[i] == all[i],
            forall|i: int| 0 <= i < r@.len() ==> #[trigger] r@[i] == all[all.len() - 1 - i],
        decreases rest@.len(),
    {
        let ghost n = rest@.len() - 1;
        assert(rest@[n] == all[n]);
        if let Some(value) = rest.pop() {
            r.push(value);
        }
    }
    r
}

// ---------------------------------------------------------------------------
// Laws
// ---------------------------------------------------------------------------

/// White space in front of a value means nothing, however much there is, and
/// nothing but blanks, tabs and the ends of lines is white space.
pub proof fn law_space_in_front_means_nothing(space: Seq<char>, s: Seq<char>, depth: nat)
    requires
        forall|i: int| #![trigger space[i]]
            0 <= i < space.len() ==> space[i] == ' ' || space[i] == '\t' || space[i] == '\n'
                || space[i] == '\r',
    ensures
        skip_space(space + s) == skip_space(s),
        s.len() > 0 && s[0] != ' ' && s[0] != '\t' && s[0] != '\n' && s[0] != '\r' ==> skip_space(s)
            == s,
        tree_in(space + s, depth) == tree_in(s, depth),
        parts_in(space + s, true) == parts_in(s, true),
        parts_in(space + s, false) == parts_in(s, false),
    decreases space.len(),
{
    if space.len() == 0 {
        assert(space + s =~= s);
    } else {
        let rest = space.skip(1);
        assert forall|i: int| #![trigger rest[i]] 0 <= i < rest.len() implies rest[i] == ' '
            || rest[i] == '\t' || rest[i] == '\n' || rest[i] == '\r' by {
            assert(rest[i] == space[i + 1]);
        }
        law_space_in_front_means_nothing(rest, s, depth);
        assert((space + s).skip(1) =~= rest + s);
        assert((space + s)[0] == space[0]);
    }
}

/// What one word says: the three words of the format are read as their
/// values, texts by their literal, and a number keeps its digits.
pub proof fn law_words_are_read_as_values(s: Seq<char>, depth: nat)
    ensures
        tree_in("null"@, depth) == Some(Tree::Null),
        tree_in("true"@, depth) == Some(Tree::Bool(true)),
        tree_in("false"@, depth) == Some(Tree::Bool(false)),
        s.len() > 0 && s[0] == '"' ==> (tree_in(s, depth) is Some <==> literal_value(s) is Some)
            && (literal_value(s) matches Some(v) ==> tree_in(s, depth) == Some(Tree::Text(v))),
        s.len() > 0 && ('0' <= s[0] <= '9' || s[0] == '-') ==> tree_in(s, depth) == Some(
            Tree::Number(s),
        ),
{
    reveal_strlit("null");
    reveal_strlit("true");
    reveal_strlit("false");
    assert("null"@[0] == 'n');
    assert("true"@[0] == 't');
    assert("false"@[0] == 'f');
    assert("null"@ != "true"@);
    assert("null"@ != "false"@);
    assert("true"@ != "false"@);
}

/// What is between braces is an object, and between brackets an array, of the
/// values of its parts, in order; nothing stands deeper than may be.
pub proof fn law_brackets_hold_values(s: Seq<char>, depth: nat)
    requires
        s.len() > 0,
        s[0] == '{' || s[0] == '[',
        depth > 0,
    ensures
        tree_in(s, 0) is None,
        parts_in(s, s[0] == '{') is None ==> tree_in(s, depth) is None,
        tree_in(s, depth) matches Some(t) ==> (t is Object <==> s[0] == '{') && (t is Array <==> s[0]
            == '['),
        tree_in(s, depth) matches Some(Tree::Object(members)) ==> (parts_in(s, true) matches Some(
            parts,
        ) && parts.len() == members.len() && forall|i: int| #![trigger members[i]]
            0 <= i < members.len() ==> members[i].0 == parts[i].0 && tree_in(
                parts[i].1,
                (depth - 1) as nat,
            ) == Some(members[i].1)),
        tree_in(s, depth) matches Some(Tree::Array(items)) ==> (parts_in(s, false) matches Some(
            parts,
        ) && parts.len() == items.len() && forall|i: int| #![trigger items[i]]
            0 <= i < items.len() ==> tree_in(parts[i].1, (depth - 1) as nat) == Some(items[i])),
{
    reveal_strlit("null");
    reveal_strlit("true");
    reveal_strlit("false");
    assert("null"@[0] == 'n');
    assert("true"@[0] == 't');
    assert("false"@[0] == 'f');
    assert(skip_space(s) == s);
    if let Some(parts) = parts_in(s, s[0] == '{') {
        lemma_trees_of_parts(parts, (depth - 1) as nat);
    }
}

proof fn lemma_trees_of_parts(parts: Seq<(Seq<char>, Seq<char>)>, depth: nat)
    ensures
        trees_in(parts, depth) matches Some(members) ==> members.len() == parts.len() && forall|i: int|
            #![trigger members[i]]
            0 <= i < members.len() ==> members[i].0 == parts[i].0 && tree_in(parts[i].1, depth)
                == Some(members[i].1),
    decreases parts.len(),
{
    if parts.len() > 0 {
        lemma_trees_of_parts(parts.drop_last(), depth);
    }
}

} // verus!
