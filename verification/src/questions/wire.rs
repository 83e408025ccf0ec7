//! Questions and answers as JSON.

use crate::json;
use crate::json::{array, object, push_member, written, Json};
use crate::questions;
use crate::questions::{
    AskUserQuestion, AskUserQuestionAnswer, AskUserQuestionOption, AskUserQuestionResult,
    AskUserQuestionSelection,
};
use crate::text;
use crate::text::{decimal_of_usize, owned, str_eq};
use vstd::prelude::*;

verus! {

// ---------------------------------------------------------------------------
// Models
// ---------------------------------------------------------------------------

/// What a selection stands for.
#[verifier::ext_equal]
pub struct SelectionView {
    pub index: usize,
    pub label: Seq<char>,
}

/// What an answer stands for.
#[verifier::ext_equal]
pub enum AnswerView {
    Option { question_index: usize, index: usize, label: Seq<char>, notes: Option<Seq<char>> },
    Multi { question_index: usize, selected: Seq<SelectionView>, notes: Option<Seq<char>> },
    Custom { question_index: usize, text: Seq<char>, notes: Option<Seq<char>> },
}

impl View for AskUserQuestionSelection {
    type V = SelectionView;

    open spec fn view(&self) -> SelectionView {
        SelectionView { index: self.index, label: self.label@ }
    }
}

/// What a list of selections stands for.
pub open spec fn selection_views(v: Seq<AskUserQuestionSelection>) -> Seq<SelectionView> {
    Seq::new(v.len(), |i: int| v[i]@)
}

impl View for AskUserQuestionAnswer {
    type V = AnswerView;

    open spec fn view(&self) -> AnswerView {
        match *self {
            AskUserQuestionAnswer::Option { question_index, index, label, notes } => {
                AnswerView::Option {
                    question_index,
                    index,
                    label: label@,
                    notes: text::opt_text(notes),
                }
            },
            AskUserQuestionAnswer::Multi { question_index, selected, notes } => AnswerView::Multi {
                question_index,
                selected: selection_views(selected@),
                notes: text::opt_text(notes),
            },
            AskUserQuestionAnswer::Custom { question_index, text: words, notes } => {
                AnswerView::Custom { question_index, text: words@, notes: text::opt_text(notes) }
            },
        }
    }
}

/// What a list of answers stands for.
pub open spec fn answer_views(v: Seq<AskUserQuestionAnswer>) -> Seq<AnswerView> {
    Seq::new(v.len(), |i: int| v[i]@)
}

// ---------------------------------------------------------------------------
// Writing
// ---------------------------------------------------------------------------

/// A member for a text, where there is one.
pub open spec fn opt_member(name: Seq<char>, s: Option<Seq<char>>) -> Seq<(Seq<char>, json::Tree)> {
    match s {
        Some(s) => seq![(name, json::Tree::Text(s))],
        None => Seq::empty(),
    }
}

/// A member for a flag, where it is set either way.
pub open spec fn opt_flag(name: Seq<char>, b: Option<bool>) -> Seq<(Seq<char>, json::Tree)> {
    match b {
        Some(b) => seq![(name, json::Tree::Bool(b))],
        None => Seq::empty(),
    }
}

/// A member for a number.
pub open spec fn count(name: Seq<char>, n: usize) -> (Seq<char>, json::Tree) {
    (name, json::Tree::Number(text::decimal(n as nat)))
}

/// An option; what is not given is left out.
pub open spec fn option_tree(o: questions::OptionView) -> json::Tree {
    json::Tree::Object(
        seq![("label"@, json::Tree::Text(o.label))] + opt_member("description"@, o.description)
            + opt_member("preview"@, o.preview) + opt_flag("recommended"@, o.recommended),
    )
}

/// A list of options.
pub open spec fn option_trees(v: Seq<questions::OptionView>) -> Seq<json::Tree> {
    Seq::new(v.len(), |i: int| option_tree(v[i]))
}

/// A question; what is not given is left out.
pub open spec fn question_tree(q: questions::QuestionView) -> json::Tree {
    json::Tree::Object(
        seq![("question"@, json::Tree::Text(q.question))] + opt_member("header"@, q.header) + seq![
            ("options"@, json::Tree::Array(option_trees(q.options))),
        ] + opt_flag("multi_select"@, q.multi_select),
    )
}

/// A selection.
pub open spec fn selection_tree(s: SelectionView) -> json::Tree {
    json::Tree::Object(seq![count("index"@, s.index), ("label"@, json::Tree::Text(s.label))])
}

/// A list of selections.
pub open spec fn selection_trees(v: Seq<SelectionView>) -> Seq<json::Tree> {
    Seq::new(v.len(), |i: int| selection_tree(v[i]))
}

/// An answer under the name of its kind.
pub open spec fn answer_tree(a: AnswerView) -> json::Tree {
    match a {
        AnswerView::Option { question_index, index, label, notes } => json::Tree::Object(
            seq![
                ("kind"@, json::Tree::Text("option"@)),
                count("question_index"@, question_index),
                count("index"@, index),
                ("label"@, json::Tree::Text(label)),
            ] + opt_member("notes"@, notes),
        ),
        AnswerView::Multi { question_index, selected, notes } => json::Tree::Object(
            seq![
                ("kind"@, json::Tree::Text("multi"@)),
                count("question_index"@, question_index),
                ("selected"@, json::Tree::Array(selection_trees(selected))),
            ] + opt_member("notes"@, notes),
        ),
        AnswerView::Custom { question_index, text: words, notes } => json::Tree::Object(
            seq![
                ("kind"@, json::Tree::Text("custom"@)),
                count("question_index"@, question_index),
                ("text"@, json::Tree::Text(words)),
            ] + opt_member("notes"@, notes),
        ),
    }
}

/// A list of answers.
pub open spec fn answer_trees(v: Seq<AnswerView>) -> Seq<json::Tree> {
    Seq::new(v.len(), |i: int| answer_tree(v[i]))
}

/// How a questionnaire was closed.
pub open spec fn result_tree(cancelled: bool, answers: Seq<AnswerView>) -> json::Tree {
    json::Tree::Object(
        seq![
            ("cancelled"@, json::Tree::Bool(cancelled)),
            ("answers"@, json::Tree::Array(answer_trees(answers))),
        ],
    )
}

fn push_opt(members: &mut Vec<(String, Json)>, name: &str, s: &Option<String>)
    ensures
        json::members_view(final(members)@) == json::members_view(old(members)@) + opt_member(
            name@,
            text::opt_text(*s),
        ),
{
    let ghost before = json::members_view(members@);
    if let Some(s) = s {
        push_member(members, name, Json::Text(owned(s.as_str())));
    }
    assert(json::members_view(members@) =~= before + opt_member(name@, text::opt_text(*s)));
}

fn push_flag(members: &mut Vec<(String, Json)>, name: &str, b: Option<bool>)
    ensures
        json::members_view(final(members)@) == json::members_view(old(members)@) + opt_flag(
            name@,
            b,
        ),
{
    let ghost before = json::members_view(members@);
    if let Some(b) = b {
        push_member(members, name, Json::Bool(b));
    }
    assert(json::members_view(members@) =~= before + opt_flag(name@, b));
}

fn push_count(members: &mut Vec<(String, Json)>, name: &str, n: usize)
    ensures
        json::members_view(final(members)@) == json::members_view(old(members)@).push(
            count(name@, n),
        ),
{
    push_member(members, name, Json::Number(decimal_of_usize(n)));
}

fn option_json(o: &AskUserQuestionOption) -> (r: Json)
    ensures
        r@ == option_tree(o@),
{
    let mut members: Vec<(String, Json)> = Vec::new();
    push_member(&mut members, "label", Json::Text(owned(o.label.as_str())));
    assert(json::members_view(members@) =~= seq![("label"@, json::Tree::Text(o.label@))]);
    push_opt(&mut members, "description", &o.description);
    push_opt(&mut members, "preview", &o.preview);
    push_flag(&mut members, "recommended", o.recommended);
    object(members)
}

/// A question as JSON; what is not given is left out.
pub fn question_json(q: &AskUserQuestion) -> (r: Json)
    ensures
        r@ == question_tree(q@),
{
    let ghost all = option_trees(questions::option_views(q.options@));
    let mut items: Vec<Json> = Vec::new();
    let mut k: usize = 0;
    assert(json::trees(items@) =~= all.take(0));
    while k < q.options.len()
        invariant
            k <= q.options@.len(),
            all == option_trees(questions::option_views(q.options@)),
            json::trees(items@) == all.take(k as int),
        decreases q.options@.len() - k,
    {
        let ghost before = items@;
        let one = option_json(&q.options[k]);
        items.push(one);
        k = k + 1;
        proof {
            assert(json::trees(items@) =~= json::trees(before).push(one@));
            assert(json::trees(items@) =~= all.take(k as int));
        }
    }
    assert(json::trees(items@) =~= all);
    let mut members: Vec<(String, Json)> = Vec::new();
    push_member(&mut members, "question", Json::Text(owned(q.question.as_str())));
    assert(json::members_view(members@) =~= seq![("question"@, json::Tree::Text(q.question@))]);
    push_opt(&mut members, "header", &q.header);
    let ghost head = json::members_view(members@);
    push_member(&mut members, "options", array(items));
    assert(json::members_view(members@) =~= head + seq![("options"@, json::Tree::Array(all))]);
    push_flag(&mut members, "multi_select", q.multi_select);
    object(members)
}

fn selections_json(v: &Vec<AskUserQuestionSelection>) -> (r: Json)
    ensures
        r@ == json::Tree::Array(selection_trees(selection_views(v@))),
{
    let ghost all = selection_trees(selection_views(v@));
    let mut items: Vec<Json> = Vec::new();
    let mut k: usize = 0;
    assert(json::trees(items@) =~= all.take(0));
    while k < v.len()
        invariant
            k <= v@.len(),
            all == selection_trees(selection_views(v@)),
            json::trees(items@) == all.take(k as int),
        decreases v@.len() - k,
    {
        let ghost before = items@;
        let mut members: Vec<(String, Json)> = Vec::new();
        push_count(&mut members, "index", v[k].index);
        push_member(&mut members, "label", Json::Text(owned(v[k].label.as_str())));
        assert(json::members_view(members@) =~= selection_tree(v@[k as int]@)->Object_0);
        let one = object(members);
        items.push(one);
        k = k + 1;
        proof {
            assert(json::trees(items@) =~= json::trees(before).push(one@));
            assert(json::trees(items@) =~= all.take(k as int));
        }
    }
    assert(json::trees(items@) =~= all);
    array(items)
}

fn answer_json(a: &AskUserQuestionAnswer) -> (r: Json)
    ensures
        r@ == answer_tree(a@),
{
    let mut members: Vec<(String, Json)> = Vec::new();
    match a {
        AskUserQuestionAnswer::Option { question_index, index, label, notes } => {
            push_member(&mut members, "kind", Json::Text(owned("option")));
            push_count(&mut members, "question_index", *question_index);
            push_count(&mut members, "index", *index);
            push_member(&mut members, "label", Json::Text(owned(label.as_str())));
            assert(json::members_view(members@) =~= seq![
                ("kind"@, json::Tree::Text("option"@)),
                count("question_index"@, *question_index),
                count("index"@, *index),
                ("label"@, json::Tree::Text(label@)),
            ]);
            push_opt(&mut members, "notes", notes);
        },
        AskUserQuestionAnswer::Multi { question_index, selected, notes } => {
            push_member(&mut members, "kind", Json::Text(owned("multi")));
            push_count(&mut members, "question_index", *question_index);
            push_member(&mut members, "selected", selections_json(selected));
            assert(json::members_view(members@) =~= seq![
                ("kind"@, json::Tree::Text("multi"@)),
                count("question_index"@, *question_index),
                ("selected"@, json::Tree::Array(selection_trees(selection_views(selected@)))),
            ]);
            push_opt(&mut members, "notes", notes);
        },
        AskUserQuestionAnswer::Custom { question_index, text: words, notes } => {
            push_member(&mut members, "kind", Json::Text(owned("custom")));
            push_count(&mut members, "question_index", *question_index);
            push_member(&mut members, "text", Json::Text(owned(words.as_str())));
            assert(json::members_view(members@) =~= seq![
                ("kind"@, json::Tree::Text("custom"@)),
                count("question_index"@, *question_index),
                ("text"@, json::Tree::Text(words@)),
            ]);
            push_opt(&mut members, "notes", notes);
        },
    }
    object(members)
}

/// How a questionnaire was closed, as JSON.
pub fn result_json(result: &AskUserQuestionResult) -> (r: Json)
    ensures
        r@ == result_tree(result.cancelled, answer_views(result.answers@)),
{
    let ghost all = answer_trees(answer_views(result.answers@));
    let mut items: Vec<Json> = Vec::new();
    let mut k: usize = 0;
    assert(json::trees(items@) =~= all.take(0));
    while k < result.answers.len()
        invariant
            k <= result.answers@.len(),
            all == answer_trees(answer_views(result.answers@)),
            json::trees(items@) == all.take(k as int),
        decreases result.answers@.len() - k,
    {
        let ghost before = items@;
        let one = answer_json(&result.answers[k]);
        items.push(one);
        k = k + 1;
        proof {
            assert(json::trees(items@) =~= json::trees(before).push(one@));
            assert(json::trees(items@) =~= all.take(k as int));
        }
    }
    assert(json::trees(items@) =~= all);
    let mut members: Vec<(String, Json)> = Vec::new();
    push_member(&mut members, "cancelled", Json::Bool(result.cancelled));
    push_member(&mut members, "answers", array(items));
    assert(json::members_view(members@) =~= seq![
        ("cancelled"@, json::Tree::Bool(result.cancelled)),
        ("answers"@, json::Tree::Array(all)),
    ]);
    object(members)
}

/// The text of how a questionnaire was closed.
pub fn result_text(result: &AskUserQuestionResult) -> (r: String)
    ensures
        r@ == json::text_of(result_tree(result.cancelled, answer_views(result.answers@))),
{
    written(&result_json(result))
}

// ---------------------------------------------------------------------------
// Reading
// ---------------------------------------------------------------------------

/// A flag that may be absent or null.
pub open spec fn read_flag(t: json::Tree, name: Seq<char>) -> Option<Option<bool>> {
    match json::named(t, name) {
        None => Some(None),
        Some(json::Tree::Null) => Some(None),
        Some(json::Tree::Bool(b)) => Some(Some(b)),
        _ => None,
    }
}

/// A number that counts something.
pub open spec fn read_count(t: json::Tree, name: Seq<char>) -> Option<usize> {
    match json::number_in(t, name, usize::MAX as nat) {
        Some(n) => Some(n as usize),
        None => None,
    }
}

/// An option.
pub open spec fn read_option(t: json::Tree) -> Option<questions::OptionView> {
    match (
        json::text_in(t, "label"@),
        json::opt_text_in(t, "description"@),
        json::opt_text_in(t, "preview"@),
        read_flag(t, "recommended"@),
    ) {
        (Some(label), Some(description), Some(preview), Some(recommended)) => Some(
            questions::OptionView { label, description, preview, recommended },
        ),
        _ => None,
    }
}

/// A list of options, where every element is one.
pub open spec fn read_options(items: Seq<json::Tree>) -> Option<Seq<questions::OptionView>>
    decreases items.len(),
{
    if items.len() == 0 {
        Some(Seq::empty())
    } else {
        match (read_options(items.drop_last()), read_option(items.last())) {
            (Some(before), Some(o)) => Some(before.push(o)),
            _ => None,
        }
    }
}

/// A question.
pub open spec fn read_question(t: json::Tree) -> Option<questions::QuestionView> {
    match (
        json::text_in(t, "question"@),
        json::opt_text_in(t, "header"@),
        json::items_in(t, "options"@),
        read_flag(t, "multi_select"@),
    ) {
        (Some(question), Some(header), Some(items), Some(multi_select)) => match read_options(
            items,
        ) {
            Some(options) => Some(
                questions::QuestionView { question, header, options, multi_select },
            ),
            None => None,
        },
        _ => None,
    }
}

/// A selection.
pub open spec fn read_selection(t: json::Tree) -> Option<SelectionView> {
    match (read_count(t, "index"@), json::text_in(t, "label"@)) {
        (Some(index), Some(label)) => Some(SelectionView { index, label }),
        _ => None,
    }
}

/// A list of selections, where every element is one.
pub open spec fn read_selections(items: Seq<json::Tree>) -> Option<Seq<SelectionView>>
    decreases items.len(),
{
    if items.len() == 0 {
        Some(Seq::empty())
    } else {
        match (read_selections(items.drop_last()), read_selection(items.last())) {
            (Some(before), Some(s)) => Some(before.push(s)),
            _ => None,
        }
    }
}

/// An answer.
pub open spec fn read_answer(t: json::Tree) -> Option<AnswerView> {
    match (
        json::text_in(t, "kind"@),
        read_count(t, "question_index"@),
        json::opt_text_in(t, "notes"@),
    ) {
        (Some(kind), Some(question_index), Some(notes)) => if kind == "option"@ {
            match (read_count(t, "index"@), json::text_in(t, "label"@)) {
                (Some(index), Some(label)) => Some(
                    AnswerView::Option { question_index, index, label, notes },
                ),
                _ => None,
            }
        } else if kind == "multi"@ {
            match json::items_in(t, "selected"@) {
                Some(items) => match read_selections(items) {
                    Some(selected) => Some(AnswerView::Multi { question_index, selected, notes }),
                    None => None,
                },
                None => None,
            }
        } else if kind == "custom"@ {
            match json::text_in(t, "text"@) {
                Some(words) => Some(AnswerView::Custom { question_index, text: words, notes }),
                None => None,
            }
        } else {
            None
        },
        _ => None,
    }
}

/// A list of answers, where every element is one.
pub open spec fn read_answers(items: Seq<json::Tree>) -> Option<Seq<AnswerView>>
    decreases items.len(),
{
    if items.len() == 0 {
        Some(Seq::empty())
    } else {
        match (read_answers(items.drop_last()), read_answer(items.last())) {
            (Some(before), Some(a)) => Some(before.push(a)),
            _ => None,
        }
    }
}

/// How a questionnaire was closed: what is absent counts as not cancelled and
/// as no answer.
pub open spec fn read_result(t: json::Tree) -> Option<(bool, Seq<AnswerView>)> {
    if !(t is Object) {
        None
    } else {
        let cancelled = match json::named(t, "cancelled"@) {
            None => Some(false),
            Some(json::Tree::Bool(b)) => Some(b),
            _ => None,
        };
        let answers = match json::named(t, "answers"@) {
            None => Some(Seq::empty()),
            Some(json::Tree::Array(items)) => read_answers(items),
            _ => None,
        };
        match (cancelled, answers) {
            (Some(cancelled), Some(answers)) => Some((cancelled, answers)),
            _ => None,
        }
    }
}

fn flag_from(t: &Json, name: &str) -> (r: Option<Option<bool>>)
    ensures
        r == read_flag(t@, name@),
{
    match t.get(name) {
        None => Some(None),
        Some(Json::Null) => Some(None),
        Some(Json::Bool(b)) => Some(Some(*b)),
        Some(_) => None,
    }
}

fn count_from(t: &Json, name: &str) -> (r: Option<usize>)
    ensures
        r == read_count(t@, name@),
{
    match t.number_member(name, usize::MAX as u64) {
        Some(n) => Some(n as usize),
        None => None,
    }
}

fn option_from(t: &Json) -> (r: Option<AskUserQuestionOption>)
    ensures
        match r {
            Some(o) => read_option(t@) == Some(o@),
            None => read_option(t@) is None,
        },
{
    match (
        t.text_member("label"),
        t.opt_text_member("description"),
        t.opt_text_member("preview"),
        flag_from(t, "recommended"),
    ) {
        (Some(label), Some(description), Some(preview), Some(recommended)) => Some(
            AskUserQuestionOption { label, description, preview, recommended },
        ),
        _ => None,
    }
}

proof fn lemma_options_fail(items: Seq<json::Tree>, k: int)
    requires
        0 <= k <= items.len(),
        read_options(items.take(k)) is None,
    ensures
        read_options(items) is None,
    decreases items.len() - k,
{
    if k < items.len() {
        assert(items.take(k + 1).drop_last() =~= items.take(k));
        lemma_options_fail(items, k + 1);
    } else {
        assert(items.take(k) =~= items);
    }
}

fn options_from(items: &Vec<Json>) -> (r: Option<Vec<AskUserQuestionOption>>)
    ensures
        match r {
            Some(v) => read_options(json::trees(items@)) == Some(questions::option_views(v@)),
            None => read_options(json::trees(items@)) is None,
        },
{
    let ghost all = json::trees(items@);
    let mut r: Vec<AskUserQuestionOption> = Vec::new();
    let mut k: usize = 0;
    assert(all.take(0).len() == 0);
    assert(questions::option_views(r@) =~= Seq::<questions::OptionView>::empty());
    while k < items.len()
        invariant
            k <= items@.len(),
            all == json::trees(items@),
            read_options(all.take(k as int)) == Some(questions::option_views(r@)),
        decreases items@.len() - k,
    {
        proof {
            assert(all.take(k + 1).drop_last() =~= all.take(k as int));
            assert(all.take(k + 1).last() == items@[k as int]@);
        }
        match option_from(&items[k]) {
            Some(o) => {
                let ghost before = r@;
                r.push(o);
                assert(questions::option_views(r@) =~= questions::option_views(before).push(o@));
            },
            None => {
                proof {
                    lemma_options_fail(all, k + 1);
                }
                return None;
            },
        }
        k = k + 1;
    }
    assert(all.take(k as int) =~= all);
    Some(r)
}

/// The question that JSON tells.
pub fn question_from(t: &Json) -> (r: Option<AskUserQuestion>)
    ensures
        match r {
            Some(q) => read_question(t@) == Some(q@),
            None => read_question(t@) is None,
        },
{
    match (
        t.text_member("question"),
        t.opt_text_member("header"),
        t.array_member("options"),
        flag_from(t, "multi_select"),
    ) {
        (Some(question), Some(header), Some(items), Some(multi_select)) => match options_from(
            items,
        ) {
            Some(options) => Some(AskUserQuestion { question, header, options, multi_select }),
            None => None,
        },
        _ => None,
    }
}

fn selection_from(t: &Json) -> (r: Option<AskUserQuestionSelection>)
    ensures
        match r {
            Some(s) => read_selection(t@) == Some(s@),
            None => read_selection(t@) is None,
        },
{
    match (count_from(t, "index"), t.text_member("label")) {
        (Some(index), Some(label)) => Some(AskUserQuestionSelection { index, label }),
        _ => None,
    }
}

proof fn lemma_selections_fail(items: Seq<json::Tree>, k: int)
    requires
        0 <= k <= items.len(),
        read_selections(items.take(k)) is None,
    ensures
        read_selections(items) is None,
    decreases items.len() - k,
{
    if k < items.len() {
        assert(items.take(k + 1).drop_last() =~= items.take(k));
        lemma_selections_fail(items, k + 1);
    } else {
        assert(items.take(k) =~= items);
    }
}

fn selections_from(items: &Vec<Json>) -> (r: Option<Vec<AskUserQuestionSelection>>)
    ensures
        match r {
            Some(v) => read_selections(json::trees(items@)) == Some(selection_views(v@)),
            None => read_selections(json::trees(items@)) is None,
        },
{
    let ghost all = json::trees(items@);
    let mut r: Vec<AskUserQuestionSelection> = Vec::new();
    let mut k: usize = 0;
    assert(all.take(0).len() == 0);
    assert(selection_views(r@) =~= Seq::<SelectionView>::empty());
    while k < items.len()
        invariant
            k <= items@.len(),
            all == json::trees(items@),
            read_selections(all.take(k as int)) == Some(selection_views(r@)),
        decreases items@.len() - k,
    {
        proof {
            assert(all.take(k + 1).drop_last() =~= all.take(k as int));
            assert(all.take(k + 1).last() == items@[k as int]@);
        }
        match selection_from(&items[k]) {
            Some(s) => {
                let ghost before = r@;
                r.push(s);
                assert(selection_views(r@) =~= selection_views(before).push(s@));
            },
            None => {
                proof {
                    lemma_selections_fail(all, k + 1);
                }
                return None;
            },
        }
        k = k + 1;
    }
    assert(all.take(k as int) =~= all);
    Some(r)
}

fn answer_from(t: &Json) -> (r: Option<AskUserQuestionAnswer>)
    ensures
        match r {
            Some(a) => read_answer(t@) == Some(a@),
            None => read_answer(t@) is None,
        },
{
    match (t.text_member("kind"), count_from(t, "question_index"), t.opt_text_member("notes")) {
        (Some(kind), Some(question_index), Some(notes)) => {
            if str_eq(kind.as_str(), "option") {
                match (count_from(t, "index"), t.text_member("label")) {
                    (Some(index), Some(label)) => Some(
                        AskUserQuestionAnswer::Option { question_index, index, label, notes },
                    ),
                    _ => None,
                }
            } else if str_eq(kind.as_str(), "multi") {
                match t.array_member("selected") {
                    Some(items) => match selections_from(items) {
                        Some(selected) => Some(
                            AskUserQuestionAnswer::Multi { question_index, selected, notes },
                        ),
                        None => None,
                    },
                    None => None,
                }
            } else if str_eq(kind.as_str(), "custom") {
                match t.text_member("text") {
                    Some(words) => Some(
                        AskUserQuestionAnswer::Custom { question_index, text: words, notes },
                    ),
                    None => None,
                }
            } else {
                None
            }
        },
        _ => None,
    }
}

proof fn lemma_answers_fail(items: Seq<json::Tree>, k: int)
    requires
        0 <= k <= items.len(),
        read_answers(items.take(k)) is None,
    ensures
        read_answers(items) is None,
    decreases items.len() - k,
{
    if k < items.len() {
        assert(items.take(k + 1).drop_last() =~= items.take(k));
        lemma_answers_fail(items, k + 1);
    } else {
        assert(items.take(k) =~= items);
    }
}

fn answers_from(items: &Vec<Json>) -> (r: Option<Vec<AskUserQuestionAnswer>>)
    ensures
        match r {
            Some(v) => read_answers(json::trees(items@)) == Some(answer_views(v@)),
            None => read_answers(json::trees(items@)) is None,
        },
{
    let ghost all = json::trees(items@);
    let mut r: Vec<AskUserQuestionAnswer> = Vec::new();
    let mut k: usize = 0;
    assert(all.take(0).len() == 0);
    assert(answer_views(r@) =~= Seq::<AnswerView>::empty());
    while k < items.len()
        invariant
            k <= items@.len(),
            all == json::trees(items@),
            read_answers(all.take(k as int)) == Some(answer_views(r@)),
        decreases items@.len() - k,
    {
        proof {
            assert(all.take(k + 1).drop_last() =~= all.take(k as int));
            assert(all.take(k + 1).last() == items@[k as int]@);
        }
        match answer_from(&items[k]) {
            Some(a) => {
                let ghost before = r@;
                r.push(a);
                assert(answer_views(r@) =~= answer_views(before).push(a@));
            },
            None => {
                proof {
                    lemma_answers_fail(all, k + 1);
                }
                return None;
            },
        }
        k = k + 1;
    }
    assert(all.take(k as int) =~= all);
    Some(r)
}

/// How a questionnaire was closed, out of JSON.
pub fn result_from(t: &Json) -> (r: Option<AskUserQuestionResult>)
    ensures
        match r {
            Some(result) => read_result(t@) == Some(
                (result.cancelled, answer_views(result.answers@)),
            ),
            None => read_result(t@) is None,
        },
{
    proof {
        json::lemma_tree(*t);
    }
    match t {
        Json::Object(_) => {},
        _ => {
            return None;
        },
    }
    let cancelled = match t.get("cancelled") {
        None => false,
        Some(Json::Bool(b)) => *b,
        Some(_) => {
            return None;
        },
    };
    let answers = match t.get("answers") {
        None => {
            let none: Vec<AskUserQuestionAnswer> = Vec::new();
            assert(answer_views(none@) =~= Seq::<AnswerView>::empty());
            none
        },
        Some(value) => {
            proof {
                json::lemma_tree(*value);
            }
            match value {
                Json::Array(items) => match answers_from(items) {
                    Some(answers) => answers,
                    None => {
                        return None;
                    },
                },
                _ => {
                    return None;
                },
            }
        },
    };
    Some(AskUserQuestionResult { cancelled, answers })
}

// ---------------------------------------------------------------------------
// Laws
// ---------------------------------------------------------------------------

proof fn lemma_option_names()
    ensures
        "label"@.len() == 5,
        "description"@.len() == 11,
        "preview"@.len() == 7,
        "recommended"@.len() == 11,
        "description"@ != "recommended"@,
{
    reveal_strlit("label");
    reveal_strlit("description");
    reveal_strlit("preview");
    reveal_strlit("recommended");
    assert("description"@[0] != "recommended"@[0]);
}

/// What an option does not give is left out of its JSON.
pub proof fn law_option_defaults_are_left_out(o: questions::OptionView)
    ensures
        o.description is None ==> json::named(option_tree(o), "description"@) is None,
        o.preview is None ==> json::named(option_tree(o), "preview"@) is None,
        o.recommended is None ==> json::named(option_tree(o), "recommended"@) is None,
{
    lemma_option_names();
    reveal_with_fuel(json::named_from, 5);
}

/// An option that was written is read as it was.
pub proof fn law_option_is_read_back(o: questions::OptionView)
    ensures
        read_option(option_tree(o)) == Some(o),
{
    lemma_option_names();
    reveal_with_fuel(json::named_from, 5);
    let t = option_tree(o);
    assert(json::named(t, "label"@) == Some(json::Tree::Text(o.label)));
    assert(json::opt_text_in(t, "description"@) == Some(o.description));
    assert(json::opt_text_in(t, "preview"@) == Some(o.preview));
    assert(read_flag(t, "recommended"@) == Some(o.recommended));
}

proof fn lemma_options_back(v: Seq<questions::OptionView>)
    ensures
        read_options(option_trees(v)) == Some(v),
    decreases v.len(),
{
    if v.len() > 0 {
        lemma_options_back(v.drop_last());
        law_option_is_read_back(v.last());
        assert(option_trees(v).drop_last() =~= option_trees(v.drop_last()));
        assert(v.drop_last().push(v.last()) =~= v);
    } else {
        assert(v =~= Seq::empty());
    }
}

proof fn lemma_question_names()
    ensures
        "question"@.len() == 8,
        "header"@.len() == 6,
        "options"@.len() == 7,
        "multi_select"@.len() == 12,
{
    reveal_strlit("question");
    reveal_strlit("header");
    reveal_strlit("options");
    reveal_strlit("multi_select");
}

/// What a question does not give is left out of its JSON.
pub proof fn law_question_defaults_are_left_out(q: questions::QuestionView)
    ensures
        q.header is None ==> json::named(question_tree(q), "header"@) is None,
        q.multi_select is None ==> json::named(question_tree(q), "multi_select"@) is None,
{
    lemma_question_names();
    reveal_with_fuel(json::named_from, 5);
}

/// A question that was written is read as it was.
pub proof fn law_question_is_read_back(q: questions::QuestionView)
    ensures
        read_question(question_tree(q)) == Some(q),
{
    lemma_question_names();
    lemma_options_back(q.options);
    reveal_with_fuel(json::named_from, 5);
    let t = question_tree(q);
    assert(json::text_in(t, "question"@) == Some(q.question));
    assert(json::opt_text_in(t, "header"@) == Some(q.header));
    assert(json::items_in(t, "options"@) == Some(option_trees(q.options)));
    assert(read_flag(t, "multi_select"@) == Some(q.multi_select));
}

proof fn lemma_selection_back(s: SelectionView)
    ensures
        read_selection(selection_tree(s)) == Some(s),
{
    reveal_strlit("index");
    reveal_strlit("label");
    assert("index"@.len() == 5);
    assert("label"@.len() == 5);
    assert("index"@[0] != "label"@[0]);
    text::law_decimal_is_read_back(s.index as nat, usize::MAX as nat);
    reveal_with_fuel(json::named_from, 3);
}

proof fn lemma_selections_back(v: Seq<SelectionView>)
    ensures
        read_selections(selection_trees(v)) == Some(v),
    decreases v.len(),
{
    if v.len() > 0 {
        lemma_selections_back(v.drop_last());
        lemma_selection_back(v.last());
        assert(selection_trees(v).drop_last() =~= selection_trees(v.drop_last()));
        assert(v.drop_last().push(v.last()) =~= v);
    } else {
        assert(v =~= Seq::empty());
    }
}

proof fn lemma_answer_names()
    ensures
        "kind"@.len() == 4,
        "text"@.len() == 4,
        "kind"@ != "text"@,
        "question_index"@.len() == 14,
        "index"@.len() == 5,
        "label"@.len() == 5,
        "notes"@.len() == 5,
        "index"@ != "label"@,
        "index"@ != "notes"@,
        "label"@ != "notes"@,
        "selected"@.len() == 8,
        "option"@ != "multi"@,
        "option"@ != "custom"@,
        "multi"@ != "custom"@,
{
    reveal_strlit("kind");
    reveal_strlit("text");
    reveal_strlit("question_index");
    reveal_strlit("index");
    reveal_strlit("label");
    reveal_strlit("notes");
    reveal_strlit("selected");
    reveal_strlit("option");
    reveal_strlit("multi");
    reveal_strlit("custom");
    assert("kind"@[0] != "text"@[0]);
    assert("index"@[0] != "label"@[0]);
    assert("index"@[0] != "notes"@[0]);
    assert("label"@[0] != "notes"@[0]);
    assert("option"@.len() == 6);
    assert("multi"@.len() == 5);
    assert("custom"@.len() == 6);
    assert("option"@[0] != "custom"@[0]);
}

proof fn lemma_answer_back(a: AnswerView)
    ensures
        read_answer(answer_tree(a)) == Some(a),
{
    lemma_answer_names();
    reveal_with_fuel(json::named_from, 6);
    let t = answer_tree(a);
    let max = usize::MAX as nat;
    match a {
        AnswerView::Option { question_index, index, label, notes } => {
            text::law_decimal_is_read_back(question_index as nat, max);
            text::law_decimal_is_read_back(index as nat, max);
            assert(json::text_in(t, "kind"@) == Some("option"@));
            assert(read_count(t, "question_index"@) == Some(question_index));
            assert(read_count(t, "index"@) == Some(index));
            assert(json::text_in(t, "label"@) == Some(label));
            assert(json::opt_text_in(t, "notes"@) == Some(notes));
        },
        AnswerView::Multi { question_index, selected, notes } => {
            text::law_decimal_is_read_back(question_index as nat, max);
            lemma_selections_back(selected);
            assert(json::text_in(t, "kind"@) == Some("multi"@));
            assert(read_count(t, "question_index"@) == Some(question_index));
            assert(json::items_in(t, "selected"@) == Some(selection_trees(selected)));
            assert(json::opt_text_in(t, "notes"@) == Some(notes));
        },
        AnswerView::Custom { question_index, text: words, notes } => {
            text::law_decimal_is_read_back(question_index as nat, max);
            assert(json::text_in(t, "kind"@) == Some("custom"@));
            assert(read_count(t, "question_index"@) == Some(question_index));
            assert(json::text_in(t, "text"@) == Some(words));
            assert(json::opt_text_in(t, "notes"@) == Some(notes));
        },
    }
}

proof fn lemma_answers_back(v: Seq<AnswerView>)
    ensures
        read_answers(answer_trees(v)) == Some(v),
    decreases v.len(),
{
    if v.len() > 0 {
        lemma_answers_back(v.drop_last());
        lemma_answer_back(v.last());
        assert(answer_trees(v).drop_last() =~= answer_trees(v.drop_last()));
        assert(v.drop_last().push(v.last()) =~= v);
    } else {
        assert(v =~= Seq::empty());
    }
}

/// A result that was written is read as it was.
pub proof fn law_result_is_read_back(cancelled: bool, answers: Seq<AnswerView>)
    ensures
        read_result(result_tree(cancelled, answers)) == Some((cancelled, answers)),
{
    reveal_strlit("cancelled");
    reveal_strlit("answers");
    assert("cancelled"@.len() == 9);
    assert("answers"@.len() == 7);
    lemma_answers_back(answers);
    reveal_with_fuel(json::named_from, 3);
}

/// An option stands under its names: the label always, the rest where it is
/// given.
pub proof fn law_options_stand_under_their_names(o: questions::OptionView)
    ensures
        json::named(option_tree(o), "label"@) == Some(json::Tree::Text(o.label)),
        o.description matches Some(s) ==> json::named(option_tree(o), "description"@) == Some(
            json::Tree::Text(s),
        ),
        o.preview matches Some(s) ==> json::named(option_tree(o), "preview"@) == Some(
            json::Tree::Text(s),
        ),
        o.recommended matches Some(b) ==> json::named(option_tree(o), "recommended"@) == Some(
            json::Tree::Bool(b),
        ),
{
    lemma_option_names();
    reveal_with_fuel(json::named_from, 5);
}

/// A question stands under its names, with its options in order.
pub proof fn law_questions_stand_under_their_names(q: questions::QuestionView)
    ensures
        json::named(question_tree(q), "question"@) == Some(json::Tree::Text(q.question)),
        json::named(question_tree(q), "options"@) == Some(
            json::Tree::Array(q.options.map_values(|o: questions::OptionView| option_tree(o))),
        ),
        q.header matches Some(s) ==> json::named(question_tree(q), "header"@) == Some(
            json::Tree::Text(s),
        ),
        q.multi_select matches Some(b) ==> json::named(question_tree(q), "multi_select"@) == Some(
            json::Tree::Bool(b),
        ),
{
    lemma_question_names();
    reveal_with_fuel(json::named_from, 5);
    assert(option_trees(q.options) =~= q.options.map_values(
        |o: questions::OptionView| option_tree(o),
    ));
}

/// An answer stands under its names, with the word for its kind.
pub proof fn law_answers_stand_under_their_names(a: AnswerView)
    ensures
        json::named(answer_tree(a), "kind"@) == Some(
            json::Tree::Text(
                match a {
                    AnswerView::Option { .. } => "option"@,
                    AnswerView::Multi { .. } => "multi"@,
                    AnswerView::Custom { .. } => "custom"@,
                },
            ),
        ),
        json::named(answer_tree(a), "question_index"@) == Some(
            json::Tree::Number(
                text::decimal(
                    match a {
                        AnswerView::Option { question_index, .. } => question_index,
                        AnswerView::Multi { question_index, .. } => question_index,
                        AnswerView::Custom { question_index, .. } => question_index,
                    } as nat,
                ),
            ),
        ),
        json::named(answer_tree(a), "notes"@) == match (match a {
            AnswerView::Option { notes, .. } => notes,
            AnswerView::Multi { notes, .. } => notes,
            AnswerView::Custom { notes, .. } => notes,
        }) {
            Some(s) => Some(json::Tree::Text(s)),
            None => None,
        },
        a matches AnswerView::Option { index, label, .. } ==> json::named(answer_tree(a), "index"@)
            == Some(json::Tree::Number(text::decimal(index as nat))) && json::named(
            answer_tree(a),
            "label"@,
        ) == Some(json::Tree::Text(label)),
        a matches AnswerView::Multi { selected, .. } ==> json::named(answer_tree(a), "selected"@)
            == Some(
            json::Tree::Array(selected.map_values(|s: SelectionView| selection_tree(s))),
        ),
        a matches AnswerView::Custom { text: words, .. } ==> json::named(answer_tree(a), "text"@)
            == Some(json::Tree::Text(words)),
{
    lemma_answer_names();
    reveal_with_fuel(json::named_from, 6);
    if let AnswerView::Multi { selected, .. } = a {
        assert(selection_trees(selected) =~= selected.map_values(
            |s: SelectionView| selection_tree(s),
        ));
    }
}

/// A selection stands under its names.
pub proof fn law_selections_stand_under_their_names(s: SelectionView)
    ensures
        json::named(selection_tree(s), "index"@) == Some(
            json::Tree::Number(text::decimal(s.index as nat)),
        ),
        json::named(selection_tree(s), "label"@) == Some(json::Tree::Text(s.label)),
{
    lemma_answer_names();
    reveal_with_fuel(json::named_from, 3);
}

/// A result stands under its names, with its answers in order.
pub proof fn law_results_stand_under_their_names(cancelled: bool, answers: Seq<AnswerView>)
    ensures
        json::named(result_tree(cancelled, answers), "cancelled"@) == Some(
            json::Tree::Bool(cancelled),
        ),
        json::named(result_tree(cancelled, answers), "answers"@) == Some(
            json::Tree::Array(answers.map_values(|a: AnswerView| answer_tree(a))),
        ),
{
    reveal_strlit("cancelled");
    reveal_strlit("answers");
    assert("cancelled"@.len() == 9);
    assert("answers"@.len() == 7);
    reveal_with_fuel(json::named_from, 3);
    assert(answer_trees(answers) =~= answers.map_values(|a: AnswerView| answer_tree(a)));
}

/// Whether a member that may be missing says a truth value.
pub open spec fn may_say(t: json::Tree, name: Seq<char>, b: Option<bool>) -> bool {
    match b {
        Some(b) => json::named(t, name) == Some(json::Tree::Bool(b)),
        None => json::named(t, name) is None || json::named(t, name) == Some(json::Tree::Null),
    }
}

/// An option is read of exactly what stands under its names.
pub proof fn law_options_are_read_by_name(t: json::Tree, o: questions::OptionView)
    ensures
        read_option(t) == Some(o) <==> json::text_in(t, "label"@) == Some(o.label)
            && json::opt_text_in(t, "description"@) == Some(o.description) && json::opt_text_in(
            t,
            "preview"@,
        ) == Some(o.preview) && may_say(t, "recommended"@, o.recommended),
{
}

/// A question is read of exactly what stands under its names.
pub proof fn law_questions_are_read_by_name(t: json::Tree, q: questions::QuestionView)
    ensures
        read_question(t) == Some(q) <==> json::text_in(t, "question"@) == Some(q.question)
            && json::opt_text_in(t, "header"@) == Some(q.header) && may_say(
            t,
            "multi_select"@,
            q.multi_select,
        ) && (json::items_in(t, "options"@) matches Some(items) && items.len() == q.options.len()
            && forall|i: int| #![trigger items[i]]
            0 <= i < items.len() ==> read_option(items[i]) == Some(q.options[i])),
{
    if let Some(items) = json::items_in(t, "options"@) {
        law_lists_of_options_are_read(items, q.options);
    }
}

/// An answer is read of exactly what stands under its names, by its kind.
pub proof fn law_answers_are_read_by_name(t: json::Tree, a: AnswerView)
    ensures
        read_answer(t) == Some(a) <==> match a {
            AnswerView::Option { question_index, index, label, notes } => json::text_in(t, "kind"@)
                == Some("option"@) && json::number_in(t, "question_index"@, usize::MAX as nat)
                == Some(question_index as nat) && json::number_in(t, "index"@, usize::MAX as nat)
                == Some(index as nat) && json::text_in(t, "label"@) == Some(label)
                && json::opt_text_in(t, "notes"@) == Some(notes),
            AnswerView::Multi { question_index, selected, notes } => json::text_in(t, "kind"@)
                == Some("multi"@) && json::number_in(t, "question_index"@, usize::MAX as nat)
                == Some(question_index as nat) && (json::items_in(t, "selected"@) matches Some(items)
                && items.len() == selected.len() && forall|i: int| #![trigger items[i]]
                0 <= i < items.len() ==> read_selection(items[i]) == Some(selected[i]))
                && json::opt_text_in(t, "notes"@) == Some(notes),
            AnswerView::Custom { question_index, text: words, notes } => json::text_in(t, "kind"@)
                == Some("custom"@) && json::number_in(t, "question_index"@, usize::MAX as nat)
                == Some(question_index as nat) && json::text_in(t, "text"@) == Some(words)
                && json::opt_text_in(t, "notes"@) == Some(notes),
        },
{
    lemma_answer_names();
    json::law_members_are_read_by_kind(t, "question_index"@, usize::MAX as nat);
    json::law_members_are_read_by_kind(t, "index"@, usize::MAX as nat);
    if let AnswerView::Multi { selected, .. } = a {
        if let Some(items) = json::items_in(t, "selected"@) {
            law_lists_of_selections_are_read(items, selected);
        }
    }
}

/// A selection is read of exactly what stands under its names.
pub proof fn law_selections_are_read_by_name(t: json::Tree, s: SelectionView)
    ensures
        read_selection(t) == Some(s) <==> json::number_in(t, "index"@, usize::MAX as nat) == Some(
            s.index as nat,
        ) && json::text_in(t, "label"@) == Some(s.label),
{
    json::law_members_are_read_by_kind(t, "index"@, usize::MAX as nat);
}

/// A result is read of an object: it was not cancelled and has no answers
/// where the object does not say, and is not read where it says them wrongly.
pub proof fn law_results_are_read_by_name(
    t: json::Tree,
    cancelled: bool,
    answers: Seq<AnswerView>,
)
    ensures
        read_result(t) == Some((cancelled, answers)) <==> t is Object && (json::named(
            t,
            "cancelled"@,
        ) == Some(json::Tree::Bool(cancelled)) || (json::named(t, "cancelled"@) is None
            && !cancelled)) && ((json::named(t, "answers"@) is None && answers.len() == 0) || (
        json::items_in(t, "answers"@) matches Some(items) && items.len() == answers.len() && forall|
            i: int,
        | #![trigger items[i]]
            0 <= i < items.len() ==> read_answer(items[i]) == Some(answers[i]))),
{
    if let Some(items) = json::items_in(t, "answers"@) {
        law_lists_of_answers_are_read(items, answers);
    }
    if answers.len() == 0 {
        assert(answers =~= Seq::empty());
    }
}

/// Options are read where each of them is, in order.
pub proof fn law_lists_of_options_are_read(items: Seq<json::Tree>, v: Seq<questions::OptionView>)
    ensures
        read_options(items) == Some(v) <==> (items.len() == v.len() && forall|i: int| #![trigger items[i]]
            0 <= i < items.len() ==> read_option(items[i]) == Some(v[i])),
    decreases items.len(),
{
    if items.len() > 0 {
        let before = items.drop_last();
        if let Some(u) = read_options(before) {
            law_lists_of_options_are_read(before, u);
            if let Some(x) = read_option(items.last()) {
                if items.len() == v.len() && forall|i: int| #![trigger items[i]]
                    0 <= i < items.len() ==> read_option(items[i]) == Some(v[i]) {
                    assert forall|i: int| 0 <= i < v.len() implies u.push(x)[i] == v[i] by {
                        if i < before.len() {
                            assert(before[i] == items[i]);
                        } else {
                            assert(items[i] == items.last());
                        }
                    }
                    assert(u.push(x) =~= v);
                }
                assert forall|i: int| #![trigger items[i]] 0 <= i < items.len() implies read_option(
                    items[i],
                ) == Some(u.push(x)[i]) by {
                    if i < before.len() {
                        assert(before[i] == items[i]);
                    } else {
                        assert(items[i] == items.last());
                    }
                }
            } else {
                assert(items[items.len() - 1] == items.last());
            }
        } else if items.len() == v.len() && forall|i: int| #![trigger items[i]]
            0 <= i < items.len() ==> read_option(items[i]) == Some(v[i]) {
            assert forall|i: int| #![trigger before[i]] 0 <= i < before.len() implies read_option(
                before[i],
            ) == Some(v.drop_last()[i]) by {
                assert(before[i] == items[i]);
            }
            law_lists_of_options_are_read(before, v.drop_last());
        }
    } else {
        assert(items =~= Seq::empty());
        if v.len() == 0 {
            assert(v =~= Seq::empty());
        }
    }
}

/// Selections are read where each of them is, in order.
pub proof fn law_lists_of_selections_are_read(items: Seq<json::Tree>, v: Seq<SelectionView>)
    ensures
        read_selections(items) == Some(v) <==> (items.len() == v.len() && forall|i: int| #![trigger items[i]]
            0 <= i < items.len() ==> read_selection(items[i]) == Some(v[i])),
    decreases items.len(),
{
    if items.len() > 0 {
        let before = items.drop_last();
        if let Some(u) = read_selections(before) {
            law_lists_of_selections_are_read(before, u);
            if let Some(x) = read_selection(items.last()) {
                if items.len() == v.len() && forall|i: int| #![trigger items[i]]
                    0 <= i < items.len() ==> read_selection(items[i]) == Some(v[i]) {
                    assert forall|i: int| 0 <= i < v.len() implies u.push(x)[i] == v[i] by {
                        if i < before.len() {
                            assert(before[i] == items[i]);
                        } else {
                            assert(items[i] == items.last());
                        }
                    }
                    assert(u.push(x) =~= v);
                }
                assert forall|i: int| #![trigger items[i]] 0 <= i < items.len() implies read_selection(
                    items[i],
                ) == Some(u.push(x)[i]) by {
                    if i < before.len() {
                        assert(before[i] == items[i]);
                    } else {
                        assert(items[i] == items.last());
                    }
                }
            } else {
                assert(items[items.len() - 1] == items.last());
            }
        } else if items.len() == v.len() && forall|i: int| #![trigger items[i]]
            0 <= i < items.len() ==> read_selection(items[i]) == Some(v[i]) {
            assert forall|i: int| #![trigger before[i]] 0 <= i < before.len() implies read_selection(
                before[i],
            ) == Some(v.drop_last()[i]) by {
                assert(before[i] == items[i]);
            }
            law_lists_of_selections_are_read(before, v.drop_last());
        }
    } else {
        assert(items =~= Seq::empty());
        if v.len() == 0 {
            assert(v =~= Seq::empty());
        }
    }
}

/// Answers are read where each of them is, in order.
pub proof fn law_lists_of_answers_are_read(items: Seq<json::Tree>, v: Seq<AnswerView>)
    ensures
        read_answers(items) == Some(v) <==> (items.len() == v.len() && forall|i: int| #![trigger items[i]]
            0 <= i < items.len() ==> read_answer(items[i]) == Some(v[i])),
    decreases items.len(),
{
    if items.len() > 0 {
        let before = items.drop_last();
        if let Some(u) = read_answers(before) {
            law_lists_of_answers_are_read(before, u);
            if let Some(x) = read_answer(items.last()) {
                if items.len() == v.len() && forall|i: int| #![trigger items[i]]
                    0 <= i < items.len() ==> read_answer(items[i]) == Some(v[i]) {
                    assert forall|i: int| 0 <= i < v.len() implies u.push(x)[i] == v[i] by {
                        if i < before.len() {
                            assert(before[i] == items[i]);
                        } else {
                            assert(items[i] == items.last());
                        }
                    }
                    assert(u.push(x) =~= v);
                }
                assert forall|i: int| #![trigger items[i]] 0 <= i < items.len() implies read_answer(
                    items[i],
                ) == Some(u.push(x)[i]) by {
                    if i < before.len() {
                        assert(before[i] == items[i]);
                    } else {
                        assert(items[i] == items.last());
                    }
                }
            } else {
                assert(items[items.len() - 1] == items.last());
            }
        } else if items.len() == v.len() && forall|i: int| #![trigger items[i]]
            0 <= i < items.len() ==> read_answer(items[i]) == Some(v[i]) {
            assert forall|i: int| #![trigger before[i]] 0 <= i < before.len() implies read_answer(
                before[i],
            ) == Some(v.drop_last()[i]) by {
                assert(before[i] == items[i]);
            }
            law_lists_of_answers_are_read(before, v.drop_last());
        }
    } else {
        assert(items =~= Seq::empty());
        if v.len() == 0 {
            assert(v =~= Seq::empty());
        }
    }
}

} // verus!
