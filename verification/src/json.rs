//! JSON: questions to a document in text form, and a tree for logic that
//! walks one.
//!
//! A place in a document is named by a JSON pointer, such as `/error/code`.

use crate::text;
use vstd::prelude::*;

pub mod reader;

verus! {

// ---------------------------------------------------------------------------
// Documents in text form
// ---------------------------------------------------------------------------

/// Whether `serde_json` reads a text as a document.
pub uninterp spec fn is_document(text: Seq<char>) -> bool;

/// Whether a text is a document with a value at a place.
pub uninterp spec fn has_value(text: Seq<char>, place: Seq<char>) -> bool;

/// The string at a place of a document.
pub uninterp spec fn string_value(text: Seq<char>, place: Seq<char>) -> Option<Seq<char>>;

/// The integer at a place of a document, where it is in the range of `i64`.
pub uninterp spec fn signed_value(text: Seq<char>, place: Seq<char>) -> Option<int>;

/// The integer at a place of a document, where it is in the range of `u64`.
pub uninterp spec fn unsigned_value(text: Seq<char>, place: Seq<char>) -> Option<int>;

/// Whether there is a null at a place of a document.
pub uninterp spec fn null_value(text: Seq<char>, place: Seq<char>) -> bool;

/// The array at a place of a document: each element as a string, or nothing
/// where it is something else.
pub uninterp spec fn array_value(text: Seq<char>, place: Seq<char>) -> Option<
    Seq<Option<Seq<char>>>,
>;

/// An optional integer as a number.
pub open spec fn opt_i64(n: Option<i64>) -> Option<int> {
    match n {
        Some(n) => Some(n as int),
        None => None,
    }
}

/// An optional integer as a number.
pub open spec fn opt_u64(n: Option<u64>) -> Option<int> {
    match n {
        Some(n) => Some(n as int),
        None => None,
    }
}

/// The character sequences of a list of optional strings.
pub open spec fn opt_texts(v: Seq<Option<String>>) -> Seq<Option<Seq<char>>> {
    Seq::new(v.len(), |i: int| text::opt_text(v[i]))
}

/// The character sequences of an optional list of optional strings.
pub open spec fn opt_list(v: Option<Vec<Option<String>>>) -> Option<Seq<Option<Seq<char>>>> {
    match v {
        Some(v) => Some(opt_texts(v@)),
        None => None,
    }
}

/// How deep arrays and objects may stand in one another for a text to be read.
pub const READ_DEPTH: usize = 127;

/// Whether a text can be that of a number: `serde_json` reads it, and it has a
/// digit at its end and no white space at its start.
pub open spec fn is_number(s: Seq<char>) -> bool {
    is_document(s) && s.len() > 0 && (text::is_digit(s[0]) || s[0] == '-') && text::is_digit(
        s.last(),
    )
}

/// Whether the text of a tree is read as that tree, arrays and objects being
/// at most `depth` deep: its numbers are such.
pub open spec fn is_readable(t: Tree, depth: nat) -> bool
    decreases depth,
{
    match t {
        Tree::Null | Tree::Bool(_) | Tree::Text(_) => true,
        Tree::Number(s) => is_number(s) || exists|n: nat|
            n <= u64::MAX && s == #[trigger] text::decimal(n),
        Tree::Array(items) => depth > 0 && forall|i: int|
            0 <= i < items.len() ==> is_readable(#[trigger] items[i], (depth - 1) as nat),
        Tree::Object(members) => depth > 0 && forall|i: int|
            0 <= i < members.len() ==> is_readable((#[trigger] members[i]).1, (depth - 1) as nat),
    }
}

/// Trusted: `serde_json::from_str` reads a text as a JSON value. Whether it
/// can depends on the text alone; the grammar is left unsaid. The text of a
/// tree is read, if it is not too deep.
#[verifier::external_body]
pub(crate) fn reads(text: &str) -> (r: bool)
    ensures
        r == is_document(text@),
        forall|t: Tree| text@ == #[trigger] text_of(t) && is_readable(t, READ_DEPTH as nat) ==> r,
{
    serde_json::from_str::<serde_json::Value>(text).is_ok()
}

/// Trusted: `serde_json::Value::pointer` finds a value by a JSON pointer in
/// the value that `from_str` reads. There is none where the text cannot be
/// read.
#[verifier::external_body]
pub(crate) fn has_at(text: &str, place: &str) -> (r: bool)
    ensures
        r == has_value(text@, place@),
{
    match serde_json::from_str::<serde_json::Value>(text) {
        Ok(value) => value.pointer(place).is_some(),
        Err(_) => false,
    }
}

/// Trusted: `serde_json::Value::as_str` gives the text of a string and nothing
/// for any other value. There is nothing where the text cannot be read or has
/// no value at the place.
#[verifier::external_body]
pub(crate) fn string_at(text: &str, place: &str) -> (r: Option<String>)
    ensures
        text::opt_text(r) == string_value(text@, place@),
{
    let value = serde_json::from_str::<serde_json::Value>(text).ok()?;
    value.pointer(place)?.as_str().map(str::to_string)
}

/// Trusted: `serde_json::Value::as_i64` gives an integer in the range of
/// `i64` and nothing for any other value. There is nothing where the text
/// cannot be read or has no value at the place.
#[verifier::external_body]
pub(crate) fn signed_at(text: &str, place: &str) -> (r: Option<i64>)
    ensures
        opt_i64(r) == signed_value(text@, place@),
{
    let value = serde_json::from_str::<serde_json::Value>(text).ok()?;
    value.pointer(place)?.as_i64()
}

/// Trusted: `serde_json::Value::as_u64` gives an integer in the range of
/// `u64` and nothing for any other value. There is nothing where the text
/// cannot be read or has no value at the place.
#[verifier::external_body]
pub(crate) fn unsigned_at(text: &str, place: &str) -> (r: Option<u64>)
    ensures
        opt_u64(r) == unsigned_value(text@, place@),
{
    let value = serde_json::from_str::<serde_json::Value>(text).ok()?;
    value.pointer(place)?.as_u64()
}

/// Trusted: `serde_json::Value::is_null` tells a null from any other value.
/// There is none where the text cannot be read or has no value at the place.
#[verifier::external_body]
pub(crate) fn null_at(text: &str, place: &str) -> (r: bool)
    ensures
        r == null_value(text@, place@),
{
    match serde_json::from_str::<serde_json::Value>(text) {
        Ok(value) => value.pointer(place).is_some_and(serde_json::Value::is_null),
        Err(_) => false,
    }
}

/// Trusted: `serde_json::Value::as_array` gives the elements of an array and
/// nothing for any other value; each element is handed on as the string that
/// it is, or nothing. There is nothing where the text cannot be read or has no
/// value at the place.
#[verifier::external_body]
pub(crate) fn array_at(text: &str, place: &str) -> (r: Option<Vec<Option<String>>>)
    ensures
        opt_list(r) == array_value(text@, place@),
{
    let value = serde_json::from_str::<serde_json::Value>(text).ok()?;
    let items = value.pointer(place)?.as_array()?;
    Some(items.iter().map(|item| item.as_str().map(str::to_string)).collect())
}

// ---------------------------------------------------------------------------
// Trees
// ---------------------------------------------------------------------------

/// A JSON value. A number is kept as its text, and an object as its members
/// in order.
#[derive(Debug)]
pub enum Json {
    Null,
    Bool(bool),
    Number(String),
    Text(String),
    Array(Vec<Json>),
    Object(Vec<(String, Json)>),
}

/// What a [`Json`] stands for.
#[verifier::ext_equal]
pub enum Tree {
    Null,
    Bool(bool),
    Number(Seq<char>),
    Text(Seq<char>),
    Array(Seq<Tree>),
    Object(Seq<(Seq<char>, Tree)>),
}

impl View for Json {
    type V = Tree;

    open spec fn view(&self) -> Tree {
        tree(*self)
    }
}

/// What a [`Json`] stands for.
pub open spec fn tree(value: Json) -> Tree
    decreases value,
{
    match value {
        Json::Null => Tree::Null,
        Json::Bool(b) => Tree::Bool(b),
        Json::Number(n) => Tree::Number(n@),
        Json::Text(s) => Tree::Text(s@),
        Json::Array(items) => Tree::Array(
            Seq::new(
                items@.len(),
                |i: int|
                    if 0 <= i < items@.len() {
                        tree(items@[i])
                    } else {
                        Tree::Null
                    },
            ),
        ),
        Json::Object(members) => Tree::Object(
            Seq::new(
                members@.len(),
                |i: int|
                    if 0 <= i < members@.len() {
                        (members@[i].0@, tree(members@[i].1))
                    } else {
                        (Seq::empty(), Tree::Null)
                    },
            ),
        ),
    }
}

/// What a list of values stands for.
pub open spec fn trees(items: Seq<Json>) -> Seq<Tree> {
    Seq::new(items.len(), |i: int| tree(items[i]))
}

/// What the members of an object stand for.
pub open spec fn members_view(members: Seq<(String, Json)>) -> Seq<(Seq<char>, Tree)> {
    Seq::new(members.len(), |i: int| (members[i].0@, tree(members[i].1)))
}

/// An array stands for its elements, an object for its members.
pub proof fn lemma_tree(value: Json)
    ensures
        match value {
            Json::Array(items) => tree(value) == Tree::Array(trees(items@)),
            Json::Object(members) => tree(value) == Tree::Object(members_view(members@)),
            _ => true,
        },
{
    match value {
        Json::Array(items) => {
            assert(tree(value)->Array_0 =~= trees(items@));
        },
        Json::Object(members) => {
            assert(tree(value)->Object_0 =~= members_view(members@));
        },
        _ => {},
    }
}

/// The first member of that name, from the `k`-th on.
pub open spec fn member_from(members: Seq<(String, Json)>, name: Seq<char>, k: int) -> Option<Json>
    decreases members.len() - k,
{
    if k >= members.len() {
        None
    } else if members[k].0@ == name {
        Some(members[k].1)
    } else {
        member_from(members, name, k + 1)
    }
}

/// The member of that name of an object; other values have none.
pub open spec fn member(value: Json, name: Seq<char>) -> Option<Json> {
    match value {
        Json::Object(members) => member_from(members@, name, 0),
        _ => None,
    }
}

/// The first member of that name, from the `k`-th on.
pub open spec fn named_from(members: Seq<(Seq<char>, Tree)>, name: Seq<char>, k: int) -> Option<Tree>
    decreases members.len() - k,
{
    if k >= members.len() {
        None
    } else if members[k].0 == name {
        Some(members[k].1)
    } else {
        named_from(members, name, k + 1)
    }
}

/// The member of that name of an object; other values have none.
pub open spec fn named(value: Tree, name: Seq<char>) -> Option<Tree> {
    match value {
        Tree::Object(members) => named_from(members, name, 0),
        _ => None,
    }
}

/// What an optional value stands for.
pub open spec fn opt_tree(value: Option<Json>) -> Option<Tree> {
    match value {
        Some(v) => Some(tree(v)),
        None => None,
    }
}

proof fn lemma_named_from(members: Seq<(String, Json)>, name: Seq<char>, k: int)
    requires
        0 <= k,
    ensures
        named_from(members_view(members), name, k) == opt_tree(member_from(members, name, k)),
    decreases members.len() - k,
{
    if k < members.len() {
        lemma_named_from(members, name, k + 1);
    }
}

/// The first member of that name.
pub fn find_member<'a>(members: &'a Vec<(String, Json)>, name: &str) -> (r: Option<&'a Json>)
    ensures
        match r {
            Some(v) => member_from(members@, name@, 0) == Some(*v),
            None => member_from(members@, name@, 0) is None,
        },
{
    let mut k: usize = 0;
    while k < members.len()
        invariant
            k <= members@.len(),
            member_from(members@, name@, 0) == member_from(members@, name@, k as int),
        decreases members@.len() - k,
    {
        if text::str_eq(members[k].0.as_str(), name) {
            return Some(&members[k].1);
        }
        k = k + 1;
    }
    None
}

impl Json {
    /// The member of that name of an object.
    pub fn get(&self, name: &str) -> (r: Option<&Json>)
        ensures
            match r {
                Some(v) => member(*self, name@) == Some(*v) && named(self@, name@) == Some(v@),
                None => member(*self, name@) is None && named(self@, name@) is None,
            },
    {
        proof {
            lemma_tree(*self);
        }
        match self {
            Json::Object(members) => {
                proof {
                    lemma_named_from(members@, name@, 0);
                }
                find_member(members, name)
            },
            _ => None,
        }
    }
}

/// Adds a member to an object.
pub fn push_member(members: &mut Vec<(String, Json)>, name: &str, value: Json)
    ensures
        members_view(final(members)@) == members_view(old(members)@).push((name@, value@)),
{
    let ghost before = members@;
    members.push((text::owned(name), value));
    assert(members_view(members@) =~= members_view(before).push((name@, value@)));
}

/// An object of these members.
pub fn object(members: Vec<(String, Json)>) -> (r: Json)
    ensures
        r@ == Tree::Object(members_view(members@)),
{
    let r = Json::Object(members);
    proof {
        lemma_tree(r);
    }
    r
}

/// An array of these elements.
pub fn array(items: Vec<Json>) -> (r: Json)
    ensures
        r@ == Tree::Array(trees(items@)),
{
    let r = Json::Array(items);
    proof {
        lemma_tree(r);
    }
    r
}

/// A copy of a value.
pub fn copy_of(value: &Json) -> (r: Json)
    ensures
        r@ == value@,
    decreases value,
{
    proof {
        lemma_tree(*value);
    }
    match value {
        Json::Null => Json::Null,
        Json::Bool(b) => Json::Bool(*b),
        Json::Number(n) => Json::Number(text::owned(n.as_str())),
        Json::Text(s) => Json::Text(text::owned(s.as_str())),
        Json::Array(items) => {
            let mut copies: Vec<Json> = Vec::new();
            let mut k: usize = 0;
            while k < items.len()
                invariant
                    k <= items@.len(),
                    *value == Json::Array(*items),
                    trees(copies@) == trees(items@).take(k as int),
                decreases items@.len() - k,
            {
                proof {
                    assert(decreases_to!(*value => value->Array_0));
                    assert(decreases_to!(items@ => items@[k as int]));
                }
                let ghost before = copies@;
                let one = copy_of(&items[k]);
                copies.push(one);
                k = k + 1;
                proof {
                    assert(trees(copies@) =~= trees(before).push(one@));
                    assert(trees(copies@) =~= trees(items@).take(k as int));
                }
            }
            assert(trees(copies@) =~= trees(items@));
            array(copies)
        },
        Json::Object(members) => {
            let mut copies: Vec<(String, Json)> = Vec::new();
            let mut k: usize = 0;
            while k < members.len()
                invariant
                    k <= members@.len(),
                    *value == Json::Object(*members),
                    members_view(copies@) == members_view(members@).take(k as int),
                decreases members@.len() - k,
            {
                proof {
                    assert(decreases_to!(*value => value->Object_0));
                    assert(decreases_to!(members@ => members@[k as int]));
                    assert(decreases_to!(members@[k as int] => members@[k as int].1));
                }
                let one = copy_of(&members[k].1);
                push_member(&mut copies, members[k].0.as_str(), one);
                k = k + 1;
                assert(members_view(copies@) =~= members_view(members@).take(k as int));
            }
            assert(members_view(copies@) =~= members_view(members@));
            object(copies)
        },
    }
}

/// Copies of the elements of an array.
pub fn copies_of(items: &Vec<Json>) -> (r: Vec<Json>)
    ensures
        trees(r@) == trees(items@),
{
    let mut r: Vec<Json> = Vec::new();
    let mut k: usize = 0;
    while k < items.len()
        invariant
            k <= items@.len(),
            trees(r@) == trees(items@).take(k as int),
        decreases items@.len() - k,
    {
        let ghost before = r@;
        let one = copy_of(&items[k]);
        r.push(one);
        k = k + 1;
        proof {
            assert(trees(r@) =~= trees(before).push(one@));
            assert(trees(r@) =~= trees(items@).take(k as int));
        }
    }
    assert(trees(r@) =~= trees(items@));
    r
}

// ---------------------------------------------------------------------------
// Reading members
// ---------------------------------------------------------------------------

/// The string that a member is.
pub open spec fn text_in(t: Tree, name: Seq<char>) -> Option<Seq<char>> {
    match named(t, name) {
        Some(Tree::Text(s)) => Some(s),
        _ => None,
    }
}

/// The string that a member may be: it may also be absent or null, and
/// nothing else.
pub open spec fn opt_text_in(t: Tree, name: Seq<char>) -> Option<Option<Seq<char>>> {
    match named(t, name) {
        None => Some(None),
        Some(Tree::Null) => Some(None),
        Some(Tree::Text(s)) => Some(Some(s)),
        _ => None,
    }
}

/// The truth value that a member is.
pub open spec fn flag_in(t: Tree, name: Seq<char>) -> Option<bool> {
    match named(t, name) {
        Some(Tree::Bool(b)) => Some(b),
        _ => None,
    }
}

/// The number of at most `max` that a member is.
pub open spec fn number_in(t: Tree, name: Seq<char>, max: nat) -> Option<nat> {
    match named(t, name) {
        Some(Tree::Number(n)) => text::parse_number(n, max),
        _ => None,
    }
}

/// The elements of the array that a member is.
pub open spec fn items_in(t: Tree, name: Seq<char>) -> Option<Seq<Tree>> {
    match named(t, name) {
        Some(Tree::Array(items)) => Some(items),
        _ => None,
    }
}

impl Json {
    /// The string that a member is.
    pub fn text_member(&self, name: &str) -> (r: Option<String>)
        ensures
            text::opt_text(r) == text_in(self@, name@),
    {
        match self.get(name) {
            Some(Json::Text(s)) => Some(text::owned(s.as_str())),
            _ => None,
        }
    }

    /// The string that a member may be; nothing where it is something else.
    pub fn opt_text_member(&self, name: &str) -> (r: Option<Option<String>>)
        ensures
            match r {
                Some(s) => opt_text_in(self@, name@) == Some(text::opt_text(s)),
                None => opt_text_in(self@, name@) is None,
            },
    {
        match self.get(name) {
            None => Some(None),
            Some(Json::Null) => Some(None),
            Some(Json::Text(s)) => Some(Some(text::owned(s.as_str()))),
            Some(_) => None,
        }
    }

    /// The truth value that a member is.
    pub fn flag_member(&self, name: &str) -> (r: Option<bool>)
        ensures
            r == flag_in(self@, name@),
    {
        match self.get(name) {
            Some(Json::Bool(b)) => Some(*b),
            _ => None,
        }
    }

    /// The number that a member is.
    pub fn number_member(&self, name: &str, max: u64) -> (r: Option<u64>)
        ensures
            match r {
                Some(n) => number_in(self@, name@, max as nat) == Some(n as nat),
                None => number_in(self@, name@, max as nat) is None,
            },
    {
        match self.get(name) {
            Some(Json::Number(n)) => text::parse_u64(n.as_str(), max),
            _ => None,
        }
    }

    /// The elements of the array that a member is.
    pub fn array_member(&self, name: &str) -> (r: Option<&Vec<Json>>)
        ensures
            match r {
                Some(items) => items_in(self@, name@) == Some(trees(items@)),
                None => items_in(self@, name@) is None,
            },
    {
        match self.get(name) {
            Some(value) => {
                proof {
                    lemma_tree(*value);
                }
                match value {
                    Json::Array(items) => Some(items),
                    _ => None,
                }
            },
            None => None,
        }
    }
}

// ---------------------------------------------------------------------------
// Records
// ---------------------------------------------------------------------------

/// The texts of a list.
pub open spec fn strs(names: Seq<&str>) -> Seq<Seq<char>> {
    Seq::new(names.len(), |i: int| names[i]@)
}

/// Whether none of those names stands twice among members.
pub open spec fn known_once(members: Seq<(Seq<char>, Tree)>, names: Seq<Seq<char>>) -> bool {
    forall|i: int, j: int|
        0 <= i < j < members.len() && (#[trigger] members[i]).0 == (#[trigger] members[j]).0
            ==> !names.contains(members[i].0)
}

/// A record with fields of those names, in order, as an object: an object
/// without a repeated field, or an array of the fields, of which there are at
/// least the first `least`.
pub open spec fn record_of(t: Tree, names: Seq<Seq<char>>, least: int) -> Option<Tree> {
    match t {
        Tree::Object(members) => if known_once(members, names) {
            Some(t)
        } else {
            None
        },
        Tree::Array(items) => if least <= items.len() <= names.len() {
            Some(Tree::Object(Seq::new(items.len(), |i: int| (names[i], items[i]))))
        } else {
            None
        },
        _ => None,
    }
}

/// An object whose names differ is a record as it is.
pub proof fn lemma_record(members: Seq<(Seq<char>, Tree)>, names: Seq<Seq<char>>, least: int)
    requires
        forall|i: int, j: int|
            0 <= i < j < members.len() ==> (#[trigger] members[i]).0 != (#[trigger] members[j]).0,
    ensures
        known_once(members, names),
        record_of(Tree::Object(members), names, least) == Some(Tree::Object(members)),
{
}

/// Whether a text is one of a list.
fn is_among(names: &[&str], name: &str) -> (r: bool)
    ensures
        r == strs(names@).contains(name@),
{
    let ghost all = strs(names@);
    let mut k: usize = 0;
    while k < names.len()
        invariant
            k <= names@.len(),
            all == strs(names@),
            forall|i: int| 0 <= i < k ==> #[trigger] all[i] != name@,
        decreases names@.len() - k,
    {
        assert(all[k as int] == names@[k as int]@);
        if text::str_eq(names[k], name) {
            return true;
        }
        k = k + 1;
    }
    false
}

/// Whether none of those names stands twice among members.
pub fn fields_stand_once(members: &Vec<(String, Json)>, names: &[&str]) -> (r: bool)
    ensures
        r == known_once(members_view(members@), strs(names@)),
{
    let ghost all = members_view(members@);
    let mut i: usize = 0;
    while i < members.len()
        invariant
            i <= members@.len(),
            all == members_view(members@),
            forall|a: int, b: int|
                0 <= a < i && a < b < all.len() && (#[trigger] all[a]).0 == (#[trigger] all[b]).0
                    ==> !strs(names@).contains(all[a].0),
        decreases members@.len() - i,
    {
        let name = members[i].0.as_str();
        assert(all[i as int].0 == name@);
        if is_among(names, name) {
            let mut j: usize = i + 1;
            while j < members.len()
                invariant
                    i < j <= members@.len(),
                    all == members_view(members@),
                    all[i as int].0 == name@,
                    strs(names@).contains(name@),
                    forall|b: int| i < b < j ==> (#[trigger] all[b]).0 != name@,
                decreases members@.len() - j,
            {
                assert(all[j as int].0 == members@[j as int].0@);
                if text::str_eq(members[j].0.as_str(), name) {
                    assert(all[i as int].0 == all[j as int].0);
                    return false;
                }
                j = j + 1;
            }
        }
        i = i + 1;
    }
    true
}

/// A record with fields of those names as an object.
pub fn record_from(t: &Json, names: &[&str], least: usize) -> (r: Option<Json>)
    ensures
        opt_tree(r) == record_of(t@, strs(names@), least as int),
{
    proof {
        lemma_tree(*t);
    }
    match t {
        Json::Object(members) => if fields_stand_once(members, names) {
            Some(copy_of(t))
        } else {
            None
        },
        Json::Array(items) => {
            if items.len() < least || items.len() > names.len() {
                return None;
            }
            let ghost all = trees(items@);
            let ghost named = Seq::new(all.len(), |i: int| (strs(names@)[i], all[i]));
            let mut members: Vec<(String, Json)> = Vec::new();
            let mut k: usize = 0;
            assert(members_view(members@) =~= named.take(0));
            while k < items.len()
                invariant
                    k <= items@.len() <= names@.len(),
                    all == trees(items@),
                    named == Seq::new(all.len(), |i: int| (strs(names@)[i], all[i])),
                    members_view(members@) == named.take(k as int),
                decreases items@.len() - k,
            {
                let ghost before = members_view(members@);
                let value = copy_of(&items[k]);
                push_member(&mut members, names[k], value);
                proof {
                    assert(named[k as int] == (names@[k as int]@, value@));
                    assert(members_view(members@) =~= named.take(k + 1));
                }
                k = k + 1;
            }
            assert(named.take(k as int) =~= named);
            Some(object(members))
        },
        _ => None,
    }
}

// ---------------------------------------------------------------------------
// Writing
// ---------------------------------------------------------------------------

/// The hexadecimal digit of a number below sixteen.
pub open spec fn hex_digit(n: int) -> char {
    if n < 10 {
        ((n + 48) as u8) as char
    } else {
        ((n + 87) as u8) as char
    }
}

/// How a character stands in a string literal: a quotation mark, a backslash
/// and a control character are escaped.
pub open spec fn escaped_char(c: char) -> Seq<char> {
    if c == '"' {
        seq!['\\', '"']
    } else if c == '\\' {
        seq!['\\', '\\']
    } else if c == '\u{8}' {
        seq!['\\', 'b']
    } else if c == '\t' {
        seq!['\\', 't']
    } else if c == '\n' {
        seq!['\\', 'n']
    } else if c == '\u{c}' {
        seq!['\\', 'f']
    } else if c == '\r' {
        seq!['\\', 'r']
    } else if (c as u32) < 32 {
        seq!['\\', 'u', '0', '0', hex_digit(c as u32 as int / 16), hex_digit(c as u32 as int % 16)]
    } else {
        seq![c]
    }
}

/// A text with its characters escaped.
pub open spec fn escaped(s: Seq<char>) -> Seq<char>
    decreases s.len(),
{
    if s.len() == 0 {
        s
    } else {
        escaped(s.drop_last()) + escaped_char(s.last())
    }
}

/// A text as a string literal.
pub open spec fn quoted(s: Seq<char>) -> Seq<char> {
    seq!['"'] + escaped(s) + seq!['"']
}

/// The text of a value, without white space between its parts.
pub open spec fn text_of(t: Tree) -> Seq<char>
    decreases t, 0nat,
{
    match t {
        Tree::Null => "null"@,
        Tree::Bool(b) => if b {
            "true"@
        } else {
            "false"@
        },
        Tree::Number(n) => n,
        Tree::Text(s) => quoted(s),
        Tree::Array(items) => seq!['['] + items_text(items, items.len()) + seq![']'],
        Tree::Object(members) => seq!['{'] + members_text(members, members.len()) + seq!['}'],
    }
}

/// The text of the first `k` elements of an array.
pub open spec fn items_text(items: Seq<Tree>, k: nat) -> Seq<char>
    decreases items, k,
{
    if k == 0 || k > items.len() {
        Seq::empty()
    } else if k == 1 {
        text_of(items[0])
    } else {
        items_text(items, (k - 1) as nat) + seq![','] + text_of(items[k - 1])
    }
}

/// The text of the first `k` members of an object.
pub open spec fn members_text(members: Seq<(Seq<char>, Tree)>, k: nat) -> Seq<char>
    decreases members, k,
{
    if k == 0 || k > members.len() {
        Seq::empty()
    } else {
        let one = quoted(members[k - 1].0) + seq![':'] + text_of(members[k - 1].1);
        if k == 1 {
            one
        } else {
            members_text(members, (k - 1) as nat) + seq![','] + one
        }
    }
}

/// Trusted: `serde_json::to_string` writes a text as a string literal: between
/// quotation marks, with quotation marks, backslashes and control characters
/// escaped.
#[verifier::external_body]
fn string_literal(s: &str) -> (r: String)
    ensures
        r@ == quoted(s@),
{
    serde_json::to_string(s).unwrap_or_default()
}

/// Adds a text as a string literal.
fn push_quoted(out: &mut String, s: &str)
    ensures
        final(out)@ == old(out)@ + quoted(s@),
{
    out.append(string_literal(s).as_str());
}

/// Adds the text of a value.
fn push_value(out: &mut String, value: &Json)
    ensures
        final(out)@ == old(out)@ + text_of(value@),
    decreases value,
{
    let ghost before = out@;
    proof {
        lemma_tree(*value);
    }
    match value {
        Json::Null => out.append("null"),
        Json::Bool(b) => if *b {
            out.append("true")
        } else {
            out.append("false")
        },
        Json::Number(n) => out.append(n.as_str()),
        Json::Text(s) => push_quoted(out, s.as_str()),
        Json::Array(items) => {
            out.push('[');
            let mut k: usize = 0;
            while k < items.len()
                invariant
                    k <= items@.len(),
                    *value == Json::Array(*items),
                    out@ == before + seq!['['] + items_text(trees(items@), k as nat),
                decreases items@.len() - k,
            {
                let ghost was = out@;
                if k > 0 {
                    out.push(',');
                }
                proof {
                    assert(decreases_to!(*value => value->Array_0));
                    assert(decreases_to!(items@ => items@[k as int]));
                }
                push_value(out, &items[k]);
                k = k + 1;
                assert(out@ =~= before + seq!['['] + items_text(trees(items@), k as nat));
            }
            out.push(']');
            assert(out@ =~= before + text_of(value@));
        },
        Json::Object(members) => {
            out.push('{');
            let mut k: usize = 0;
            while k < members.len()
                invariant
                    k <= members@.len(),
                    *value == Json::Object(*members),
                    out@ == before + seq!['{'] + members_text(members_view(members@), k as nat),
                decreases members@.len() - k,
            {
                let ghost was = out@;
                if k > 0 {
                    out.push(',');
                }
                push_quoted(out, members[k].0.as_str());
                out.push(':');
                proof {
                    assert(decreases_to!(*value => value->Object_0));
                    assert(decreases_to!(members@ => members@[k as int]));
                    assert(decreases_to!(members@[k as int] => members@[k as int].1));
                }
                push_value(out, &members[k].1);
                k = k + 1;
                assert(out@ =~= before + seq!['{'] + members_text(
                    members_view(members@),
                    k as nat,
                ));
            }
            out.push('}');
            assert(out@ =~= before + text_of(value@));
        },
    }
}

/// The text of a value, without white space between its parts.
pub fn written(value: &Json) -> (r: String)
    ensures
        r@ == text_of(value@),
{
    let mut out = String::new();
    push_value(&mut out, value);
    assert(out@ =~= text_of(value@));
    out
}

// ---------------------------------------------------------------------------
// One line
// ---------------------------------------------------------------------------

/// Whether no number of a tree is written with a line feed.
pub open spec fn has_plain_numbers(t: Tree) -> bool
    decreases t, 0nat,
{
    match t {
        Tree::Number(s) => !s.contains('\n'),
        Tree::Array(items) => items_have_plain_numbers(items, items.len()),
        Tree::Object(members) => members_have_plain_numbers(members, members.len()),
        _ => true,
    }
}

/// Whether no number of the first `k` elements is written with a line feed.
pub open spec fn items_have_plain_numbers(items: Seq<Tree>, k: nat) -> bool
    decreases items, k,
{
    if k == 0 || k > items.len() {
        true
    } else {
        items_have_plain_numbers(items, (k - 1) as nat) && has_plain_numbers(items[k - 1])
    }
}

/// Whether no number of the first `k` members is written with a line feed.
pub open spec fn members_have_plain_numbers(members: Seq<(Seq<char>, Tree)>, k: nat) -> bool
    decreases members, k,
{
    if k == 0 || k > members.len() {
        true
    } else {
        members_have_plain_numbers(members, (k - 1) as nat) && has_plain_numbers(members[k - 1].1)
    }
}

/// Members whose numbers are written without line feeds, taken together.
pub proof fn lemma_plain_members(members: Seq<(Seq<char>, Tree)>, k: nat)
    requires
        forall|i: int| 0 <= i < members.len() ==> has_plain_numbers((#[trigger] members[i]).1),
    ensures
        members_have_plain_numbers(members, k),
    decreases k,
{
    if 0 < k <= members.len() {
        lemma_plain_members(members, (k - 1) as nat);
    }
}

proof fn lemma_escaped_is_one_line(s: Seq<char>)
    ensures
        !escaped(s).contains('\n'),
    decreases s.len(),
{
    if s.len() > 0 {
        lemma_escaped_is_one_line(s.drop_last());
        let all = escaped(s);
        let before = escaped(s.drop_last());
        let c = s.last();
        assert forall|i: int| 0 <= i < all.len() implies all[i] != '\n' by {
            if i < before.len() {
                assert(all[i] == before[i]);
                assert(before.contains(before[i]));
            } else {
                assert(all[i] == escaped_char(c)[i - before.len()]);
                let n = c as u32 as int;
                if n < 32 {
                    assert(0 <= n / 16 < 16 && 0 <= n % 16 < 16);
                    assert(hex_digit(n / 16) != '\n');
                    assert(hex_digit(n % 16) != '\n');
                }
            }
        }
    }
}

proof fn lemma_quoted_is_one_line(s: Seq<char>)
    ensures
        !quoted(s).contains('\n'),
{
    lemma_escaped_is_one_line(s);
    lemma_joint(seq!['"'], escaped(s));
    lemma_joint(seq!['"'] + escaped(s), seq!['"']);
}

proof fn lemma_joint(a: Seq<char>, b: Seq<char>)
    requires
        !a.contains('\n'),
        !b.contains('\n'),
    ensures
        !(a + b).contains('\n'),
{
    assert forall|i: int| 0 <= i < (a + b).len() implies (a + b)[i] != '\n' by {
        if i < a.len() {
            assert((a + b)[i] == a[i]);
        } else {
            assert((a + b)[i] == b[i - a.len()]);
        }
    }
}

/// A document is written on one line.
pub proof fn law_documents_are_one_line(t: Tree)
    requires
        has_plain_numbers(t),
    ensures
        !text_of(t).contains('\n'),
    decreases t, 0nat,
{
    match t {
        Tree::Null => reveal_strlit("null"),
        Tree::Bool(_) => {
            reveal_strlit("true");
            reveal_strlit("false");
        },
        Tree::Number(_) => {},
        Tree::Text(s) => lemma_quoted_is_one_line(s),
        Tree::Array(items) => {
            lemma_items_are_one_line(items, items.len());
            lemma_joint(seq!['['], items_text(items, items.len()));
            lemma_joint(seq!['['] + items_text(items, items.len()), seq![']']);
        },
        Tree::Object(members) => {
            lemma_members_are_one_line(members, members.len());
            lemma_joint(seq!['{'], members_text(members, members.len()));
            lemma_joint(seq!['{'] + members_text(members, members.len()), seq!['}']);
        },
    }
}

proof fn lemma_items_are_one_line(items: Seq<Tree>, k: nat)
    requires
        items_have_plain_numbers(items, k),
    ensures
        !items_text(items, k).contains('\n'),
    decreases items, k,
{
    if 0 < k <= items.len() {
        lemma_items_are_one_line(items, (k - 1) as nat);
        law_documents_are_one_line(items[k - 1]);
        let before = items_text(items, (k - 1) as nat);
        lemma_joint(before, seq![',']);
        lemma_joint(before + seq![','], text_of(items[k - 1]));
    }
}

proof fn lemma_members_are_one_line(members: Seq<(Seq<char>, Tree)>, k: nat)
    requires
        members_have_plain_numbers(members, k),
    ensures
        !members_text(members, k).contains('\n'),
    decreases members, k,
{
    if 0 < k <= members.len() {
        lemma_members_are_one_line(members, (k - 1) as nat);
        law_documents_are_one_line(members[k - 1].1);
        let (name, value) = members[k - 1];
        lemma_quoted_is_one_line(name);
        lemma_joint(quoted(name), seq![':']);
        lemma_joint(quoted(name) + seq![':'], text_of(value));
        let one = quoted(name) + seq![':'] + text_of(value);
        let before = members_text(members, (k - 1) as nat);
        lemma_joint(before, seq![',']);
        lemma_joint(before + seq![','], one);
    }
}

/// A member is found by its name, and the first of that name is the one;
/// where none has the name, nothing is found.
pub proof fn law_the_first_member_of_a_name_is_found(
    before: Seq<(Seq<char>, Tree)>,
    name: Seq<char>,
    value: Tree,
    behind: Seq<(Seq<char>, Tree)>,
)
    requires
        forall|i: int| #![trigger before[i]] 0 <= i < before.len() ==> before[i].0 != name,
    ensures
        named(Tree::Object(before.push((name, value)) + behind), name) == Some(value),
        named(Tree::Object(before), name) is None,
{
    lemma_named_at(before.push((name, value)) + behind, name, before.len() as int, 0);
    lemma_not_named(before, name, 0);
}

/// Only objects have members.
pub proof fn law_only_objects_have_members(t: Tree, name: Seq<char>)
    requires
        !(t is Object),
    ensures
        named(t, name) is None,
{
}

proof fn lemma_named_at(members: Seq<(Seq<char>, Tree)>, name: Seq<char>, at: int, k: int)
    requires
        0 <= k <= at < members.len(),
        members[at].0 == name,
        forall|i: int| #![trigger members[i]] 0 <= i < at ==> members[i].0 != name,
    ensures
        named_from(members, name, k) == Some(members[at].1),
    decreases at - k,
{
    if k < at {
        lemma_named_at(members, name, at, k + 1);
    }
}

proof fn lemma_not_named(members: Seq<(Seq<char>, Tree)>, name: Seq<char>, k: int)
    requires
        0 <= k <= members.len(),
        forall|i: int| #![trigger members[i]] 0 <= i < members.len() ==> members[i].0 != name,
    ensures
        named_from(members, name, k) is None,
    decreases members.len() - k,
{
    if k < members.len() {
        lemma_not_named(members, name, k + 1);
    }
}

/// A member of a value stands for the member of its tree under that name.
pub proof fn law_members_stand_for_those_of_the_tree(value: Json, name: Seq<char>)
    ensures
        opt_tree(member(value, name)) == named(value@, name),
{
    lemma_tree(value);
    if let Json::Object(members) = value {
        lemma_named_from(members@, name, 0);
    }
}

/// What is read of a member: a text of a text, a truth value of a truth
/// value, a number of a number that is in range, items of an array, and
/// nothing of anything else. A text that may be missing is missing where there
/// is no member or a null.
pub proof fn law_members_are_read_by_kind(t: Tree, name: Seq<char>, max: nat)
    ensures
        forall|s: Seq<char>| text_in(t, name) == Some(s) <==> named(t, name) == Some(Tree::Text(s)),
        forall|b: bool| flag_in(t, name) == Some(b) <==> named(t, name) == Some(Tree::Bool(b)),
        forall|items: Seq<Tree>|
            items_in(t, name) == Some(items) <==> named(t, name) == Some(Tree::Array(items)),
        forall|s: Seq<char>|
            opt_text_in(t, name) == Some(Some(s)) <==> named(t, name) == Some(Tree::Text(s)),
        opt_text_in(t, name) == Some(None::<Seq<char>>) <==> (named(t, name) is None || named(
            t,
            name,
        ) == Some(Tree::Null)),
        forall|n: nat|
            n <= max && named(t, name) == Some(Tree::Number(#[trigger] text::decimal(n)))
                ==> number_in(t, name, max) == Some(n),
        number_in(t, name, max) is Some ==> named(t, name) matches Some(Tree::Number(_)),
        number_in(t, name, max) matches Some(n) ==> n <= max,
{
    assert forall|n: nat|
        n <= max && named(t, name) == Some(Tree::Number(#[trigger] text::decimal(n))) implies number_in(
        t,
        name,
        max,
    ) == Some(n) by {
        text::law_decimal_is_read_back(n, max);
    }
    if let Some(Tree::Number(s)) = named(t, name) {
        text::law_numbers_are_read_from_digits(s, max);
    }
}

/// A record may stand as an object, in which no field occurs twice, or as the
/// list of its fields in order, of which the last may be left out down to the
/// least number; nothing else is a record.
pub proof fn law_records_are_objects_or_lists(
    t: Tree,
    names: Seq<Seq<char>>,
    least: int,
    i: int,
)
    requires
        names.no_duplicates(),
    ensures
        t matches Tree::Object(members) ==> (record_of(t, names, least) is Some <==> forall|
            j: int,
            k: int,
        |
            0 <= j < k < members.len() && names.contains((#[trigger] members[j]).0)
                ==> (#[trigger] members[k]).0 != members[j].0),
        t is Object && record_of(t, names, least) is Some ==> record_of(t, names, least) == Some(t),
        t matches Tree::Array(items) ==> (record_of(t, names, least) is Some <==> least
            <= items.len() && items.len() <= names.len()),
        t matches Tree::Array(items) ==> record_of(t, names, least) is Some && 0 <= i < items.len()
            ==> named(record_of(t, names, least)->0, names[i]) == Some(items[i]),
        t matches Tree::Array(items) ==> record_of(t, names, least) is Some && items.len() <= i
            < names.len() ==> named(record_of(t, names, least)->0, names[i]) is None,
        !(t is Object) && !(t is Array) ==> record_of(t, names, least) is None,
{
    if let Tree::Array(items) = t {
        if record_of(t, names, least) is Some {
            let members = Seq::new(items.len(), |j: int| (names[j], items[j]));
            assert(record_of(t, names, least) == Some(Tree::Object(members)));
            if 0 <= i < items.len() {
                lemma_named_at(members, names[i], i, 0);
            } else if items.len() <= i < names.len() {
                lemma_not_named(members, names[i], 0);
            }
        }
    }
    if let Tree::Object(members) = t {
        if record_of(t, names, least) is Some {
            assert forall|j: int, k: int|
                0 <= j < k < members.len() && names.contains(
                    (#[trigger] members[j]).0,
                ) implies (#[trigger] members[k]).0 != members[j].0 by {}
        }
    }
}

/// Texts are escaped one character after another: quotes and backslashes stand
/// behind a backslash, the control characters that have a letter by that
/// letter, the others by their number, and any other character by itself.
pub proof fn law_characters_are_escaped_one_by_one(a: Seq<char>, b: Seq<char>, c: char)
    ensures
        escaped(a + b) == escaped(a) + escaped(b),
        quoted(a) == seq!['"'] + escaped(a) + seq!['"'],
        c as u32 >= 32 && c != '"' && c != '\\' ==> escaped(seq![c]) == seq![c],
        escaped(seq!['"']) == seq!['\\', '"'],
        escaped(seq!['\\']) == seq!['\\', '\\'],
        escaped(seq!['\u{8}']) == seq!['\\', 'b'],
        escaped(seq!['\t']) == seq!['\\', 't'],
        escaped(seq!['\n']) == seq!['\\', 'n'],
        escaped(seq!['\u{c}']) == seq!['\\', 'f'],
        escaped(seq!['\r']) == seq!['\\', 'r'],
        escaped(seq!['\0']) == seq!['\\', 'u', '0', '0', '0', '0'],
        escaped(seq!['\u{b}']) == seq!['\\', 'u', '0', '0', '0', 'b'],
        escaped(seq!['\u{1f}']) == seq!['\\', 'u', '0', '0', '1', 'f'],
{
    lemma_escaped_parts(a, b);
    lemma_escaped_one(c);
    lemma_escaped_one('"');
    lemma_escaped_one('\\');
    lemma_escaped_one('\u{8}');
    lemma_escaped_one('\t');
    lemma_escaped_one('\n');
    lemma_escaped_one('\u{c}');
    lemma_escaped_one('\r');
    lemma_escaped_one('\0');
    lemma_escaped_one('\u{b}');
    lemma_escaped_one('\u{1f}');
}

proof fn lemma_escaped_one(c: char)
    ensures
        escaped(seq![c]) == escaped_char(c),
{
    reveal_with_fuel(escaped, 2);
    assert(seq![c].drop_last() =~= Seq::empty());
    assert(Seq::<char>::empty() + escaped_char(c) =~= escaped_char(c));
}

proof fn lemma_escaped_parts(a: Seq<char>, b: Seq<char>)
    ensures
        escaped(a + b) == escaped(a) + escaped(b),
    decreases b.len(),
{
    if b.len() == 0 {
        assert(a + b =~= a);
        assert(escaped(b) =~= Seq::empty());
    } else {
        lemma_escaped_parts(a, b.drop_last());
        assert((a + b).drop_last() =~= a + b.drop_last());
        assert(escaped(a) + (escaped(b.drop_last()) + escaped_char(b.last())) =~= (escaped(a)
            + escaped(b.drop_last())) + escaped_char(b.last()));
    }
}

/// A document is written without white space: an array is its items, parted
/// by commas, between square brackets; an object its members, each a quoted
/// name, a colon and the value, between braces; and the simple values are the
/// words of the format.
pub proof fn law_documents_are_written_part_by_part(
    items: Seq<Tree>,
    members: Seq<(Seq<char>, Tree)>,
    s: Seq<char>,
)
    ensures
        text_of(Tree::Array(items)) == seq!['['] + text::join(
            items.map_values(|t: Tree| text_of(t)),
            seq![','],
        ) + seq![']'],
        text_of(Tree::Object(members)) == seq!['{'] + text::join(
            members.map_values(|m: (Seq<char>, Tree)| quoted(m.0) + seq![':'] + text_of(m.1)),
            seq![','],
        ) + seq!['}'],
        text_of(Tree::Null) == "null"@,
        text_of(Tree::Bool(true)) == "true"@,
        text_of(Tree::Bool(false)) == "false"@,
        text_of(Tree::Number(s)) == s,
        text_of(Tree::Text(s)) == quoted(s),
{
    lemma_items_joined(items, items.len());
    assert(items.take(items.len() as int) =~= items);
    lemma_members_joined(members, members.len());
    assert(members.take(members.len() as int) =~= members);
}

proof fn lemma_items_joined(items: Seq<Tree>, k: nat)
    requires
        k <= items.len(),
    ensures
        items_text(items, k) == text::join(
            items.take(k as int).map_values(|t: Tree| text_of(t)),
            seq![','],
        ),
    decreases k,
{
    let parts = items.take(k as int).map_values(|t: Tree| text_of(t));
    if k > 1 {
        lemma_items_joined(items, (k - 1) as nat);
        assert(parts.drop_last() =~= items.take(k - 1).map_values(|t: Tree| text_of(t)));
    }
}

proof fn lemma_members_joined(members: Seq<(Seq<char>, Tree)>, k: nat)
    requires
        k <= members.len(),
    ensures
        members_text(members, k) == text::join(
            members.take(k as int).map_values(
                |m: (Seq<char>, Tree)| quoted(m.0) + seq![':'] + text_of(m.1),
            ),
            seq![','],
        ),
    decreases k,
{
    let parts = members.take(k as int).map_values(
        |m: (Seq<char>, Tree)| quoted(m.0) + seq![':'] + text_of(m.1),
    );
    if k > 1 {
        lemma_members_joined(members, (k - 1) as nat);
        assert(parts.drop_last() =~= members.take(k - 1).map_values(
            |m: (Seq<char>, Tree)| quoted(m.0) + seq![':'] + text_of(m.1),
        ));
    }
}

} // verus!
