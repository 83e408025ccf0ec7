//! The record of a waiting question as JSON.

use crate::ask_user_question::PendingAskUserQuestion;
use crate::json;
use crate::json::{array, object, push_member, Json};
use crate::questions;
use crate::questions::wire;
use crate::questions::wire::{question_from, question_json};
use crate::questions::AskUserQuestion;
use crate::text;
use crate::text::owned;
use crate::timestamp;
use crate::timestamp::{instant_in_text, text_of_instant};
use vstd::prelude::*;

verus! {

/// What a record stands for.
#[verifier::ext_equal]
pub struct RecordView {
    pub request_id: Seq<char>,
    pub tool_call_id: Option<Seq<char>>,
    pub questions: Seq<questions::QuestionView>,
    /// When the question was asked, in seconds and nanoseconds.
    pub asked_at: (int, int),
}

impl View for PendingAskUserQuestion {
    type V = RecordView;

    open spec fn view(&self) -> RecordView {
        RecordView {
            request_id: self.request_id@,
            tool_call_id: text::opt_text(self.tool_call_id),
            questions: questions::question_views(self.questions@),
            asked_at: timestamp::instant_of(self.asked_at),
        }
    }
}

/// A list of questions.
pub open spec fn question_trees(v: Seq<questions::QuestionView>) -> Seq<json::Tree> {
    Seq::new(v.len(), |i: int| wire::question_tree(v[i]))
}

/// A record, with the time written out.
pub open spec fn record_tree(r: RecordView, asked_at: Seq<char>) -> json::Tree {
    json::Tree::Object(
        seq![("request_id"@, json::Tree::Text(r.request_id))] + wire::opt_member(
            "tool_call_id"@,
            r.tool_call_id,
        ) + seq![
            ("questions"@, json::Tree::Array(question_trees(r.questions))),
            ("asked_at"@, json::Tree::Text(asked_at)),
        ],
    )
}

/// A list of questions, where every element is one.
pub open spec fn read_questions(items: Seq<json::Tree>) -> Option<Seq<questions::QuestionView>>
    decreases items.len(),
{
    if items.len() == 0 {
        Some(Seq::empty())
    } else {
        match (read_questions(items.drop_last()), wire::read_question(items.last())) {
            (Some(before), Some(q)) => Some(before.push(q)),
            _ => None,
        }
    }
}

/// A record.
pub open spec fn read_record(t: json::Tree) -> Option<RecordView> {
    match (
        json::text_in(t, "request_id"@),
        json::opt_text_in(t, "tool_call_id"@),
        json::items_in(t, "questions"@),
        json::text_in(t, "asked_at"@),
    ) {
        (Some(request_id), Some(tool_call_id), Some(items), Some(time)) => match (
            read_questions(items),
            timestamp::instant(time),
        ) {
            (Some(questions), Some(asked_at)) => Some(
                RecordView { request_id, tool_call_id, questions, asked_at },
            ),
            _ => None,
        },
        _ => None,
    }
}

proof fn lemma_questions_back(v: Seq<questions::QuestionView>)
    ensures
        read_questions(question_trees(v)) == Some(v),
    decreases v.len(),
{
    if v.len() > 0 {
        lemma_questions_back(v.drop_last());
        wire::law_question_is_read_back(v.last());
        assert(question_trees(v).drop_last() =~= question_trees(v.drop_last()));
        assert(v.drop_last().push(v.last()) =~= v);
    } else {
        assert(v =~= Seq::empty());
    }
}

/// A record that was written is read as it was, where the text of its time is.
pub proof fn law_record_is_read_back(r: RecordView, asked_at: Seq<char>)
    requires
        timestamp::instant(asked_at) == Some(r.asked_at),
    ensures
        read_record(record_tree(r, asked_at)) == Some(r),
{
    reveal_strlit("request_id");
    reveal_strlit("tool_call_id");
    reveal_strlit("questions");
    reveal_strlit("asked_at");
    assert("request_id"@.len() == 10);
    assert("tool_call_id"@.len() == 12);
    assert("questions"@.len() == 9);
    assert("asked_at"@.len() == 8);
    lemma_questions_back(r.questions);
    reveal_with_fuel(json::named_from, 5);
    let t = record_tree(r, asked_at);
    assert(json::text_in(t, "request_id"@) == Some(r.request_id));
    assert(json::opt_text_in(t, "tool_call_id"@) == Some(r.tool_call_id));
    assert(json::items_in(t, "questions"@) == Some(question_trees(r.questions)));
    assert(json::text_in(t, "asked_at"@) == Some(asked_at));
}

/// A record as JSON; nothing where its time has no text. A record of a time in
/// a year of four digits reads back as it was.
pub fn record_json(record: &PendingAskUserQuestion) -> (r: Option<Json>)
    ensures
        match timestamp::rfc3339(record@.asked_at.0, record@.asked_at.1) {
            Some(time) => r matches Some(t) && t@ == record_tree(record@, time),
            None => r is None,
        },
        timestamp::is_plain(record.asked_at) ==> r is Some && read_record(r->0@) == Some(record@),
{
    let time = match text_of_instant(record.asked_at) {
        Some(time) => time,
        None => {
            return None;
        },
    };
    let ghost all = question_trees(questions::question_views(record.questions@));
    let mut items: Vec<Json> = Vec::new();
    let mut k: usize = 0;
    assert(json::trees(items@) =~= all.take(0));
    while k < record.questions.len()
        invariant
            k <= record.questions@.len(),
            all == question_trees(questions::question_views(record.questions@)),
            json::trees(items@) == all.take(k as int),
        decreases record.questions@.len() - k,
    {
        let ghost before = items@;
        let one = question_json(&record.questions[k]);
        items.push(one);
        k = k + 1;
        proof {
            assert(json::trees(items@) =~= json::trees(before).push(one@));
            assert(json::trees(items@) =~= all.take(k as int));
        }
    }
    assert(json::trees(items@) =~= all);
    let mut members: Vec<(String, Json)> = Vec::new();
    push_member(&mut members, "request_id", Json::Text(owned(record.request_id.as_str())));
    if let Some(id) = &record.tool_call_id {
        push_member(&mut members, "tool_call_id", Json::Text(owned(id.as_str())));
    }
    push_member(&mut members, "questions", array(items));
    let ghost asked_at = time@;
    push_member(&mut members, "asked_at", Json::Text(time));
    assert(json::members_view(members@) =~= record_tree(record@, asked_at)->Object_0);
    proof {
        if timestamp::is_plain(record.asked_at) {
            law_record_is_read_back(record@, asked_at);
        }
    }
    Some(object(members))
}

proof fn lemma_questions_fail(items: Seq<json::Tree>, k: int)
    requires
        0 <= k <= items.len(),
        read_questions(items.take(k)) is None,
    ensures
        read_questions(items) is None,
    decreases items.len() - k,
{
    if k < items.len() {
        assert(items.take(k + 1).drop_last() =~= items.take(k));
        lemma_questions_fail(items, k + 1);
    } else {
        assert(items.take(k) =~= items);
    }
}

fn questions_from(items: &Vec<Json>) -> (r: Option<Vec<AskUserQuestion>>)
    ensures
        match r {
            Some(v) => read_questions(json::trees(items@)) == Some(questions::question_views(v@)),
            None => read_questions(json::trees(items@)) is None,
        },
{
    let ghost all = json::trees(items@);
    let mut r: Vec<AskUserQuestion> = Vec::new();
    let mut k: usize = 0;
    assert(all.take(0).len() == 0);
    assert(questions::question_views(r@) =~= Seq::<questions::QuestionView>::empty());
    while k < items.len()
        invariant
            k <= items@.len(),
            all == json::trees(items@),
            read_questions(all.take(k as int)) == Some(questions::question_views(r@)),
        decreases items@.len() - k,
    {
        proof {
            assert(all.take(k + 1).drop_last() =~= all.take(k as int));
            assert(all.take(k + 1).last() == items@[k as int]@);
        }
        match question_from(&items[k]) {
            Some(q) => {
                let ghost before = r@;
                r.push(q);
                assert(questions::question_views(r@) =~= questions::question_views(before).push(
                    q@,
                ));
            },
            None => {
                proof {
                    lemma_questions_fail(all, k + 1);
                }
                return None;
            },
        }
        k = k + 1;
    }
    assert(all.take(k as int) =~= all);
    Some(r)
}

/// The record that JSON tells.
pub fn record_from(t: &Json) -> (r: Option<PendingAskUserQuestion>)
    ensures
        match r {
            Some(record) => read_record(t@) == Some(record@),
            None => read_record(t@) is None,
        },
{
    match (
        t.text_member("request_id"),
        t.opt_text_member("tool_call_id"),
        t.array_member("questions"),
        t.text_member("asked_at"),
    ) {
        (Some(request_id), Some(tool_call_id), Some(items), Some(time)) => match (
            questions_from(items),
            instant_in_text(time.as_str()),
        ) {
            (Some(questions), Some(asked_at)) => Some(
                PendingAskUserQuestion { request_id, tool_call_id, questions, asked_at },
            ),
            _ => None,
        },
        _ => None,
    }
}

/// A record stands under its names, with its questions in order.
pub proof fn law_records_stand_under_their_names(r: RecordView, asked_at: Seq<char>)
    ensures
        json::named(record_tree(r, asked_at), "request_id"@) == Some(
            json::Tree::Text(r.request_id),
        ),
        json::named(record_tree(r, asked_at), "tool_call_id"@) == match r.tool_call_id {
            Some(s) => Some(json::Tree::Text(s)),
            None => None,
        },
        json::named(record_tree(r, asked_at), "questions"@) == Some(
            json::Tree::Array(
                r.questions.map_values(|q: questions::QuestionView| wire::question_tree(q)),
            ),
        ),
        json::named(record_tree(r, asked_at), "asked_at"@) == Some(json::Tree::Text(asked_at)),
{
    reveal_strlit("request_id");
    reveal_strlit("tool_call_id");
    reveal_strlit("questions");
    reveal_strlit("asked_at");
    assert("request_id"@.len() == 10);
    assert("tool_call_id"@.len() == 12);
    assert("questions"@.len() == 9);
    assert("asked_at"@.len() == 8);
    reveal_with_fuel(json::named_from, 5);
    assert(question_trees(r.questions) =~= r.questions.map_values(
        |q: questions::QuestionView| wire::question_tree(q),
    ));
}

/// A record is read of exactly what stands under its names.
pub proof fn law_records_are_read_by_name(t: json::Tree, r: RecordView)
    ensures
        read_record(t) == Some(r) <==> json::text_in(t, "request_id"@) == Some(r.request_id)
            && json::opt_text_in(t, "tool_call_id"@) == Some(r.tool_call_id) && (json::text_in(
            t,
            "asked_at"@,
        ) matches Some(time) && timestamp::instant(time) == Some(r.asked_at)) && (json::items_in(
            t,
            "questions"@,
        ) matches Some(items) && items.len() == r.questions.len() && forall|i: int|
            #![trigger items[i]]
            0 <= i < items.len() ==> wire::read_question(items[i]) == Some(r.questions[i])),
{
    if let Some(items) = json::items_in(t, "questions"@) {
        law_lists_of_questions_are_read(items, r.questions);
    }
}

/// Questions are read where each of them is, in order.
pub proof fn law_lists_of_questions_are_read(items: Seq<json::Tree>, v: Seq<questions::QuestionView>)
    ensures
        read_questions(items) == Some(v) <==> (items.len() == v.len() && forall|i: int| #![trigger items[i]]
            0 <= i < items.len() ==> wire::read_question(items[i]) == Some(v[i])),
    decreases items.len(),
{
    if items.len() > 0 {
        let before = items.drop_last();
        if let Some(u) = read_questions(before) {
            law_lists_of_questions_are_read(before, u);
            if let Some(x) = wire::read_question(items.last()) {
                if items.len() == v.len() && forall|i: int| #![trigger items[i]]
                    0 <= i < items.len() ==> wire::read_question(items[i]) == Some(v[i]) {
                    assert forall|i: int| 0 <= i < v.len() implies u.push(x)[i] == v[i] by {
                        if i < before.len() {
                            assert(before[i] == items[i]);
                        } else {
                            assert(items[i] == items.last());
                        }
                    }
                    assert(u.push(x) =~= v);
                }
                assert forall|i: int| #![trigger items[i]] 0 <= i < items.len() implies wire::read_question(
                    items[i],
                ) == Some(u.push(x)[i]) by {
                    if i < before.len() {
                        assert(before[i] == items[i]);
                    } else {
                        assert(items[i] == items.last());
                    }
                }
            } else {
                assert(items[items.len() - 1] == items.last());
            }
        } else if items.len() == v.len() && forall|i: int| #![trigger items[i]]
            0 <= i < items.len() ==> wire::read_question(items[i]) == Some(v[i]) {
            assert forall|i: int| #![trigger before[i]] 0 <= i < before.len() implies wire::read_question(
                before[i],
            ) == Some(v.drop_last()[i]) by {
                assert(before[i] == items[i]);
            }
            law_lists_of_questions_are_read(before, v.drop_last());
        }
    } else {
        assert(items =~= Seq::empty());
        if v.len() == 0 {
            assert(v =~= Seq::empty());
        }
    }
}

} // verus!
