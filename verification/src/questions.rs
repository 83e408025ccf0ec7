//! Structured questions to the user: their shape, the rules they obey, and
//! how answers are told.

pub mod wire;

use crate::text;
use crate::text::{
    cat2, cat3, cat4, cat5, cat6, decimal_of_usize, join_texts, owned, str_eq,
    stripped_suffix,
};
use vstd::prelude::*;

verus! {

pub const MIN_QUESTIONS: usize = 1;

pub const MAX_QUESTIONS: usize = 4;

pub const MIN_OPTIONS: usize = 1;

pub const MAX_OPTIONS: usize = 4;

pub const MAX_HEADER_LENGTH: usize = 12;

pub const MAX_LABEL_LENGTH: usize = 60;

/// The tag that the client paints on a recommended option, and the only
/// suffix taken off authored labels.
pub const RECOMMENDED_SUFFIX: &'static str = " (Recommended)";

/// The free-text row, which the client appends.
pub const FREE_TEXT_LABEL: &'static str = "Type something.";

/// The other label that may not be authored.
pub const OTHER_LABEL: &'static str = "Other";

// ---------------------------------------------------------------------------
// Shape
// ---------------------------------------------------------------------------

/// One choice.
#[derive(Debug, Clone, PartialEq)]
pub struct AskUserQuestionOption {
    pub label: String,
    /// One short sentence on the impact or trade-off.
    pub description: Option<String>,
    /// Detail shown beside the options on wide panes.
    pub preview: Option<String>,
    /// Whether this is the agent's recommendation.
    pub recommended: Option<bool>,
}

/// One question with its choices.
#[derive(Debug, Clone, PartialEq)]
pub struct AskUserQuestion {
    pub question: String,
    /// A short label; by default the number of the question.
    pub header: Option<String>,
    pub options: Vec<AskUserQuestionOption>,
    /// Whether several options may be selected.
    pub multi_select: Option<bool>,
}

/// What an [`AskUserQuestionOption`] stands for.
#[verifier::ext_equal]
pub struct OptionView {
    pub label: Seq<char>,
    pub description: Option<Seq<char>>,
    pub preview: Option<Seq<char>>,
    pub recommended: Option<bool>,
}

/// What an [`AskUserQuestion`] stands for.
#[verifier::ext_equal]
pub struct QuestionView {
    pub question: Seq<char>,
    pub header: Option<Seq<char>>,
    pub options: Seq<OptionView>,
    pub multi_select: Option<bool>,
}

impl View for AskUserQuestionOption {
    type V = OptionView;

    open spec fn view(&self) -> OptionView {
        OptionView {
            label: self.label@,
            description: text::opt_text(self.description),
            preview: text::opt_text(self.preview),
            recommended: self.recommended,
        }
    }
}

/// What a list of options stands for.
pub open spec fn option_views(options: Seq<AskUserQuestionOption>) -> Seq<OptionView> {
    Seq::new(options.len(), |i: int| options[i]@)
}

impl View for AskUserQuestion {
    type V = QuestionView;

    open spec fn view(&self) -> QuestionView {
        QuestionView {
            question: self.question@,
            header: text::opt_text(self.header),
            options: option_views(self.options@),
            multi_select: self.multi_select,
        }
    }
}

/// What a list of questions stands for.
pub open spec fn question_views(questions: Seq<AskUserQuestion>) -> Seq<QuestionView> {
    Seq::new(questions.len(), |i: int| questions[i]@)
}

/// The default header of the question at `index`.
pub open spec fn default_header(index: int) -> Seq<char> {
    "Q"@ + text::decimal((index + 1) as nat)
}

/// The header of the question at `index`, default applied.
pub open spec fn header_of(q: QuestionView, index: int) -> Seq<char> {
    match q.header {
        Some(header) => header,
        None => default_header(index),
    }
}

/// Whether several options may be selected.
pub open spec fn is_multi(q: QuestionView) -> bool {
    q.multi_select == Some(true)
}

/// Whether an option is recommended.
pub open spec fn is_recommended(o: OptionView) -> bool {
    o.recommended == Some(true)
}

/// Whether a choice that may be missing says yes.
fn says_yes(choice: Option<bool>) -> (r: bool)
    ensures
        r == (choice == Some(true)),
{
    match choice {
        Some(b) => b,
        None => false,
    }
}

impl AskUserQuestion {
    /// The header, default applied.
    pub fn display_header(&self, index: usize) -> (r: String)
        requires
            self.header is Some || index < usize::MAX,
        ensures
            r@ == header_of(self@, index as int),
    {
        match &self.header {
            Some(header) => owned(header.as_str()),
            None => cat2("Q", decimal_of_usize(index + 1).as_str()),
        }
    }

    /// Whether several options may be selected.
    pub fn is_multi_select(&self) -> (r: bool)
        ensures
            r == is_multi(self@),
    {
        says_yes(self.multi_select)
    }
}

// ---------------------------------------------------------------------------
// Normal form
// ---------------------------------------------------------------------------

/// A label without the painted suffix.
pub open spec fn bare_label(label: Seq<char>) -> Seq<char> {
    match text::strip_suffix(label, RECOMMENDED_SUFFIX@) {
        Some(bare) => bare,
        None => label,
    }
}

/// A label without the painted suffix.
pub fn strip_recommended_suffix(label: &str) -> (r: &str)
    ensures
        r@ == bare_label(label@),
{
    match stripped_suffix(label, RECOMMENDED_SUFFIX) {
        Some(bare) => bare,
        None => label,
    }
}

/// An option in normal form: no painted suffix, and no recommendation but a
/// positive one.
pub open spec fn normal_option(o: OptionView) -> OptionView {
    OptionView {
        label: bare_label(o.label),
        recommended: if is_recommended(o) {
            Some(true)
        } else {
            None
        },
        ..o
    }
}

/// The first recommended option, from the `k`-th on.
pub open spec fn recommended_from(options: Seq<OptionView>, k: int) -> Option<int>
    decreases options.len() - k,
{
    if k >= options.len() {
        None
    } else if is_recommended(options[k]) {
        Some(k)
    } else {
        recommended_from(options, k + 1)
    }
}

/// The options with the first recommended one in front.
pub open spec fn recommended_first(options: Seq<OptionView>) -> Seq<OptionView> {
    match recommended_from(options, 0) {
        Some(k) => seq![options[k]] + options.remove(k),
        None => options,
    }
}

/// Each option in normal form.
pub open spec fn normal_options(options: Seq<OptionView>) -> Seq<OptionView> {
    Seq::new(options.len(), |i: int| normal_option(options[i]))
}

/// The question at `index` in normal form: with a header, its options in
/// normal form, the recommended one in front.
pub open spec fn normal_question(q: QuestionView, index: int) -> QuestionView {
    QuestionView {
        header: Some(header_of(q, index)),
        options: recommended_first(normal_options(q.options)),
        ..q
    }
}

/// Questions in normal form.
pub open spec fn normal_questions(questions: Seq<QuestionView>) -> Seq<QuestionView> {
    Seq::new(questions.len(), |i: int| normal_question(questions[i], i))
}

/// Puts an option in normal form.
fn normalized_option(o: AskUserQuestionOption) -> (r: AskUserQuestionOption)
    ensures
        r@ == normal_option(o@),
{
    let label = owned(strip_recommended_suffix(o.label.as_str()));
    let recommended = if says_yes(o.recommended) {
        Some(true)
    } else {
        None
    };
    AskUserQuestionOption {
        label,
        description: o.description,
        preview: o.preview,
        recommended,
    }
}

/// The first recommended option.
fn find_recommended(options: &Vec<AskUserQuestionOption>) -> (r: Option<usize>)
    ensures
        match recommended_from(option_views(options@), 0) {
            Some(k) => r is Some && r->0 == k && k < options@.len(),
            None => r is None,
        },
{
    let ghost views = option_views(options@);
    let mut k: usize = 0;
    while k < options.len()
        invariant
            k <= options@.len(),
            views == option_views(options@),
            recommended_from(views, 0) == recommended_from(views, k as int),
        decreases options@.len() - k,
    {
        assert(views[k as int] == options@[k as int]@);
        if says_yes(options[k].recommended) {
            return Some(k);
        }
        k = k + 1;
    }
    None
}

/// Puts the options of a question in normal form.
fn normalized_options(options: Vec<AskUserQuestionOption>) -> (r: Vec<AskUserQuestionOption>)
    ensures
        option_views(r@) == recommended_first(normal_options(option_views(options@))),
{
    let ghost all = option_views(options@);
    let mut rest = options;
    let mut r: Vec<AskUserQuestionOption> = Vec::new();
    while rest.len() > 0
        invariant
            r@.len() + rest@.len() == all.len(),
            forall|i: int| 0 <= i < rest@.len() ==> (#[trigger] rest@[i])@ == all[r@.len() + i],
            option_views(r@) == normal_options(all).take(r@.len() as int),
        decreases rest@.len(),
    {
        let ghost was = rest@;
        let ghost before = r@;
        let option = rest.remove(0);
        proof {
            assert(was[0]@ == all[before.len() as int]);
            assert forall|i: int| 0 <= i < rest@.len() implies (#[trigger] rest@[i])@
                == all[before.len() + 1 + i] by {
                assert(was[i + 1]@ == all[before.len() + (i + 1)]);
            }
        }
        r.push(normalized_option(option));
        assert(option_views(r@) =~= normal_options(all).take(before.len() as int + 1));
    }
    assert(normal_options(all).take(all.len() as int) =~= normal_options(all));
    let ghost views = option_views(r@);
    match find_recommended(&r) {
        Some(k) => {
            let ghost was = r@;
            let recommended = r.remove(k);
            r.insert(0, recommended);
            proof {
                assert(views[k as int] == recommended@);
                assert forall|i: int| 0 <= i < r@.len() implies option_views(r@)[i] == (seq![
                    views[k as int],
                ] + views.remove(k as int))[i] by {
                    if 0 < i <= k {
                        assert(r@[i] == was[i - 1]);
                    } else if i > k {
                        assert(r@[i] == was[i]);
                    }
                }
                assert(option_views(r@) =~= recommended_first(views));
            }
        },
        None => {},
    }
    r
}

/// Puts a question in normal form.
fn normalized_question(q: AskUserQuestion, index: usize) -> (r: AskUserQuestion)
    requires
        index < usize::MAX,
    ensures
        r@ == normal_question(q@, index as int),
{
    let header = q.display_header(index);
    AskUserQuestion {
        question: q.question,
        header: Some(header),
        options: normalized_options(q.options),
        multi_select: q.multi_select,
    }
}

/// Puts questions in normal form.
pub fn normalize_questions(questions: &mut Vec<AskUserQuestion>)
    ensures
        question_views(final(questions)@) == normal_questions(question_views(old(questions)@)),
{
    let ghost all = question_views(questions@);
    let total: usize = questions.len();
    let mut r: Vec<AskUserQuestion> = Vec::new();
    while questions.len() > 0
        invariant
            all == question_views(old(questions)@),
            total == all.len(),
            r@.len() + questions@.len() == all.len(),
            forall|i: int|
                0 <= i < questions@.len() ==> (#[trigger] questions@[i])@ == all[r@.len() + i],
            question_views(r@) == normal_questions(all).take(r@.len() as int),
        decreases questions@.len(),
    {
        let ghost was = questions@;
        let ghost before = r@;
        let question = questions.remove(0);
        proof {
            assert(was[0]@ == all[before.len() as int]);
            assert forall|i: int| 0 <= i < questions@.len() implies (#[trigger] questions@[i])@
                == all[before.len() + 1 + i] by {
                assert(was[i + 1]@ == all[before.len() + (i + 1)]);
            }
        }
        let index: usize = r.len();
        r.push(normalized_question(question, index));
        assert(question_views(r@) =~= normal_questions(all).take(before.len() as int + 1));
    }
    assert(normal_questions(all).take(all.len() as int) =~= normal_questions(all));
    *questions = r;
}

// ---------------------------------------------------------------------------
// Rules
// ---------------------------------------------------------------------------

/// How many options are recommended.
pub open spec fn recommended_count(options: Seq<OptionView>) -> nat
    decreases options.len(),
{
    if options.len() == 0 {
        0
    } else {
        recommended_count(options.drop_last()) + if is_recommended(options.last()) {
            1nat
        } else {
            0nat
        }
    }
}

/// Whether a label may not be authored.
pub open spec fn is_reserved(label: Seq<char>) -> bool {
    label == OTHER_LABEL@ || label == FREE_TEXT_LABEL@
}

/// `errors` with one more, where it applies.
pub open spec fn error_if(applies: bool, error: Seq<char>) -> Seq<Seq<char>> {
    if applies {
        seq![error]
    } else {
        Seq::empty()
    }
}

/// The errors of an option.
pub open spec fn option_errors(prefix: Seq<char>, o: OptionView) -> Seq<Seq<char>> {
    error_if(
        bare_label(o.label).len() == 0,
        prefix + ": option label is empty after removing the "@ + RECOMMENDED_SUFFIX@ + " suffix"@,
    ) + error_if(
        o.label.len() > MAX_LABEL_LENGTH,
        prefix + ": option label \""@ + o.label + "\" is "@ + text::decimal(o.label.len())
            + " chars (max "@ + text::decimal(MAX_LABEL_LENGTH as nat) + ")"@,
    ) + error_if(
        is_reserved(o.label),
        prefix + ": option label \""@ + o.label
            + "\" is reserved (the client appends the free-text row automatically)"@,
    )
}

/// The errors of the options from the `k`-th on.
pub open spec fn options_errors(prefix: Seq<char>, options: Seq<OptionView>, k: int) -> Seq<
    Seq<char>,
>
    decreases options.len() - k,
{
    if k >= options.len() {
        Seq::empty()
    } else {
        option_errors(prefix, options[k]) + options_errors(prefix, options, k + 1)
    }
}

/// How errors name the question at `index`.
pub open spec fn error_prefix(q: QuestionView, index: int) -> Seq<char> {
    "question "@ + text::decimal((index + 1) as nat) + " ("@ + header_of(q, index) + ")"@
}

/// The errors of the question at `index`.
pub open spec fn question_errors(q: QuestionView, index: int) -> Seq<Seq<char>> {
    let prefix = error_prefix(q, index);
    error_if(
        q.options.len() < MIN_OPTIONS || q.options.len() > MAX_OPTIONS,
        prefix + ": expected "@ + text::decimal(MIN_OPTIONS as nat) + "-"@ + text::decimal(
            MAX_OPTIONS as nat,
        ) + " options, got "@ + text::decimal(q.options.len()),
    ) + error_if(
        recommended_count(q.options) > 1,
        prefix + ": at most one recommended option, got "@ + text::decimal(
            recommended_count(q.options),
        ),
    ) + error_if(
        q.header is Some && q.header->0.len() > MAX_HEADER_LENGTH,
        prefix + ": header \""@ + q.header->0 + "\" is "@ + text::decimal(q.header->0.len())
            + " chars (max "@ + text::decimal(MAX_HEADER_LENGTH as nat) + ")"@,
    ) + options_errors(prefix, q.options, 0)
}

/// The errors of the questions from the `k`-th on.
pub open spec fn questions_errors(questions: Seq<QuestionView>, k: int) -> Seq<Seq<char>>
    decreases questions.len() - k,
{
    if k >= questions.len() {
        Seq::empty()
    } else {
        question_errors(questions[k], k) + questions_errors(questions, k + 1)
    }
}

/// All errors of a questionnaire, one for each rule that is broken.
pub open spec fn all_errors(questions: Seq<QuestionView>) -> Seq<Seq<char>> {
    error_if(
        questions.len() < MIN_QUESTIONS || questions.len() > MAX_QUESTIONS,
        "expected "@ + text::decimal(MIN_QUESTIONS as nat) + "-"@ + text::decimal(
            MAX_QUESTIONS as nat,
        ) + " questions, got "@ + text::decimal(questions.len()),
    ) + questions_errors(questions, 0)
}

/// Adds an error.
fn push_error(errors: &mut Vec<String>, error: String)
    ensures
        text::texts(final(errors)@) == text::texts(old(errors)@) + seq![error@],
{
    proof {
        text::lemma_texts_push(errors@, error);
        assert(text::texts(errors@).push(error@) =~= text::texts(errors@) + seq![error@]);
    }
    errors.push(error);
}

/// Adds the errors of an option.
fn check_option(errors: &mut Vec<String>, prefix: &str, o: &AskUserQuestionOption)
    ensures
        text::texts(final(errors)@) == text::texts(old(errors)@) + option_errors(prefix@, o@),
{
    let ghost before = text::texts(errors@);
    let label = o.label.as_str();
    let count: usize = label.unicode_len();
    let empty = strip_recommended_suffix(label).unicode_len() == 0;
    if empty {
        push_error(
            errors,
            cat4(
                prefix,
                ": option label is empty after removing the ",
                RECOMMENDED_SUFFIX,
                " suffix",
            ),
        );
    }
    if count > MAX_LABEL_LENGTH {
        let tail = cat3(" chars (max ", decimal_of_usize(MAX_LABEL_LENGTH).as_str(), ")");
        let error = cat6(
            prefix,
            ": option label \"",
            label,
            "\" is ",
            decimal_of_usize(count).as_str(),
            tail.as_str(),
        );
        proof {
            assert(error@ =~= prefix@ + ": option label \""@ + label@ + "\" is "@ + text::decimal(
                label@.len(),
            ) + " chars (max "@ + text::decimal(MAX_LABEL_LENGTH as nat) + ")"@);
        }
        push_error(errors, error);
    }
    if str_eq(label, OTHER_LABEL) || str_eq(label, FREE_TEXT_LABEL) {
        push_error(
            errors,
            cat4(
                prefix,
                ": option label \"",
                label,
                "\" is reserved (the client appends the free-text row automatically)",
            ),
        );
    }
    assert(text::texts(errors@) =~= before + option_errors(prefix@, o@));
}

/// How many options are recommended.
fn count_recommended(options: &Vec<AskUserQuestionOption>) -> (n: usize)
    ensures
        n == recommended_count(option_views(options@)),
        n <= options@.len(),
{
    let ghost views = option_views(options@);
    let mut n: usize = 0;
    let mut k: usize = 0;
    while k < options.len()
        invariant
            k <= options@.len(),
            n <= k,
            views == option_views(options@),
            n == recommended_count(views.take(k as int)),
        decreases options@.len() - k,
    {
        proof {
            assert(views.take(k + 1).drop_last() =~= views.take(k as int));
            assert(views.take(k + 1).last() == options@[k as int]@);
        }
        if says_yes(options[k].recommended) {
            n = n + 1;
        }
        k = k + 1;
    }
    assert(views.take(views.len() as int) =~= views);
    n
}

/// Adds the errors of the question at `index`.
fn check_question(errors: &mut Vec<String>, q: &AskUserQuestion, index: usize)
    requires
        index < usize::MAX,
    ensures
        text::texts(final(errors)@) == text::texts(old(errors)@) + question_errors(
            q@,
            index as int,
        ),
{
    let ghost before = text::texts(errors@);
    let header = q.display_header(index);
    let prefix_text = cat5(
        "question ",
        decimal_of_usize(index + 1).as_str(),
        " (",
        header.as_str(),
        ")",
    );
    let prefix = prefix_text.as_str();
    let ghost options = option_views(q.options@);
    let count: usize = q.options.len();
    if count < MIN_OPTIONS || count > MAX_OPTIONS {
        push_error(
            errors,
            cat6(
                prefix,
                ": expected ",
                decimal_of_usize(MIN_OPTIONS).as_str(),
                "-",
                decimal_of_usize(MAX_OPTIONS).as_str(),
                cat2(" options, got ", decimal_of_usize(count).as_str()).as_str(),
            ),
        );
    }
    let ghost first = error_if(
        options.len() < MIN_OPTIONS || options.len() > MAX_OPTIONS,
        prefix@ + ": expected "@ + text::decimal(MIN_OPTIONS as nat) + "-"@ + text::decimal(
            MAX_OPTIONS as nat,
        ) + " options, got "@ + text::decimal(options.len()),
    );
    assert(text::texts(errors@) =~~= before + first);
    let recommended: usize = count_recommended(&q.options);
    if recommended > 1 {
        push_error(
            errors,
            cat3(
                prefix,
                ": at most one recommended option, got ",
                decimal_of_usize(recommended).as_str(),
            ),
        );
    }
    let ghost second = error_if(
        recommended_count(options) > 1,
        prefix@ + ": at most one recommended option, got "@ + text::decimal(
            recommended_count(options),
        ),
    );
    assert(text::texts(errors@) =~= before + first + second);
    if let Some(header) = &q.header {
        let length: usize = header.as_str().unicode_len();
        if length > MAX_HEADER_LENGTH {
            let tail = cat3(" chars (max ", decimal_of_usize(MAX_HEADER_LENGTH).as_str(), ")");
            push_error(
                errors,
                cat6(
                    prefix,
                    ": header \"",
                    header.as_str(),
                    "\" is ",
                    decimal_of_usize(length).as_str(),
                    tail.as_str(),
                ),
            );
        }
    }
    let ghost third = error_if(
        q@.header is Some && q@.header->0.len() > MAX_HEADER_LENGTH,
        prefix@ + ": header \""@ + q@.header->0 + "\" is "@ + text::decimal(q@.header->0.len())
            + " chars (max "@ + text::decimal(MAX_HEADER_LENGTH as nat) + ")"@,
    );
    assert(text::texts(errors@) =~~= before + first + second + third);
    let ghost so_far = text::texts(errors@);
    let ghost all = options_errors(prefix@, options, 0);
    let ghost mut done: Seq<Seq<char>> = Seq::empty();
    let mut k: usize = 0;
    proof {
        assert(so_far + done =~= so_far);
        assert(done + options_errors(prefix@, options, 0) =~= all);
    }
    while k < q.options.len()
        invariant
            k <= q.options@.len(),
            options == option_views(q.options@),
            all == options_errors(prefix@, options, 0),
            text::texts(errors@) == so_far + done,
            done + options_errors(prefix@, options, k as int) == all,
        decreases q.options@.len() - k,
    {
        assert(options[k as int] == q.options@[k as int]@);
        check_option(errors, prefix, &q.options[k]);
        proof {
            let new = option_errors(prefix@, options[k as int]);
            let rest = options_errors(prefix@, options, k + 1);
            assert(done + (new + rest) =~= (done + new) + rest);
            assert(so_far + done + new =~= so_far + (done + new));
            done = done + new;
        }
        k = k + 1;
    }
    proof {
        assert(done =~= all);
        assert(prefix@ == error_prefix(q@, index as int));
        assert(text::texts(errors@) =~= before + question_errors(q@, index as int));
    }
}

/// The errors of a questionnaire, one for each rule that is broken; none where
/// it is valid.
pub fn validate_questions(questions: &[AskUserQuestion]) -> (r: Vec<String>)
    ensures
        text::texts(r@) == all_errors(question_views(questions@)),
{
    let ghost views = question_views(questions@);
    let mut errors: Vec<String> = Vec::new();
    let count: usize = questions.len();
    assert(text::texts(errors@) =~= Seq::<Seq<char>>::empty());
    if count < MIN_QUESTIONS || count > MAX_QUESTIONS {
        push_error(
            &mut errors,
            cat6(
                "expected ",
                decimal_of_usize(MIN_QUESTIONS).as_str(),
                "-",
                decimal_of_usize(MAX_QUESTIONS).as_str(),
                " questions, got ",
                decimal_of_usize(count).as_str(),
            ),
        );
    }
    let ghost first = error_if(
        views.len() < MIN_QUESTIONS || views.len() > MAX_QUESTIONS,
        "expected "@ + text::decimal(MIN_QUESTIONS as nat) + "-"@ + text::decimal(
            MAX_QUESTIONS as nat,
        ) + " questions, got "@ + text::decimal(views.len()),
    );
    assert(text::texts(errors@) =~= first);
    let ghost all = questions_errors(views, 0);
    let ghost mut done: Seq<Seq<char>> = Seq::empty();
    let mut k: usize = 0;
    proof {
        assert(first + done =~= first);
        assert(done + questions_errors(views, 0) =~= all);
    }
    while k < questions.len()
        invariant
            k <= questions@.len(),
            count == questions@.len(),
            views == question_views(questions@),
            all == questions_errors(views, 0),
            text::texts(errors@) == first + done,
            done + questions_errors(views, k as int) == all,
        decreases questions@.len() - k,
    {
        assert(views[k as int] == questions@[k as int]@);
        check_question(&mut errors, &questions[k], k);
        proof {
            let new = question_errors(views[k as int], k as int);
            let rest = questions_errors(views, k + 1);
            assert(done + (new + rest) =~= (done + new) + rest);
            assert(first + done + new =~= first + (done + new));
            done = done + new;
        }
        k = k + 1;
    }
    assert(done =~= all);
    errors
}

// ---------------------------------------------------------------------------
// Answers
// ---------------------------------------------------------------------------

/// One selection of several.
#[derive(Debug, Clone, PartialEq)]
pub struct AskUserQuestionSelection {
    /// The position of the option.
    pub index: usize,
    pub label: String,
}

/// The answer to one question. Positions count from zero; notes are what the
/// user adds.
#[derive(Debug, Clone, PartialEq)]
pub enum AskUserQuestionAnswer {
    Option { question_index: usize, index: usize, label: String, notes: Option<String> },
    Multi {
        question_index: usize,
        selected: Vec<AskUserQuestionSelection>,
        notes: Option<String>,
    },
    Custom { question_index: usize, text: String, notes: Option<String> },
}

/// How a questionnaire was closed.
#[derive(Debug, Clone, PartialEq)]
pub struct AskUserQuestionResult {
    /// Whether the user aborted it.
    pub cancelled: bool,
    /// The answers, in the order of the questions.
    pub answers: Vec<AskUserQuestionAnswer>,
}

impl Default for AskUserQuestionResult {
    fn default() -> (r: Self)
        ensures
            !r.cancelled,
            r.answers@.len() == 0,
    {
        AskUserQuestionResult { cancelled: false, answers: Vec::new() }
    }
}

/// The question that an answer is for.
pub open spec fn index_of(a: AskUserQuestionAnswer) -> usize {
    match a {
        AskUserQuestionAnswer::Option { question_index, .. } => question_index,
        AskUserQuestionAnswer::Multi { question_index, .. } => question_index,
        AskUserQuestionAnswer::Custom { question_index, .. } => question_index,
    }
}

/// The notes of an answer.
pub open spec fn notes_of(a: AskUserQuestionAnswer) -> Option<Seq<char>> {
    match a {
        AskUserQuestionAnswer::Option { notes, .. } => text::opt_text(notes),
        AskUserQuestionAnswer::Multi { notes, .. } => text::opt_text(notes),
        AskUserQuestionAnswer::Custom { notes, .. } => text::opt_text(notes),
    }
}

impl AskUserQuestionAnswer {
    /// The question that this answer is for.
    pub fn question_index(&self) -> (r: usize)
        ensures
            r == index_of(*self),
    {
        match self {
            AskUserQuestionAnswer::Option { question_index, .. } => *question_index,
            AskUserQuestionAnswer::Multi { question_index, .. } => *question_index,
            AskUserQuestionAnswer::Custom { question_index, .. } => *question_index,
        }
    }

    /// The notes of this answer.
    pub fn notes(&self) -> (r: Option<&str>)
        ensures
            text::opt_str(r) == notes_of(*self),
    {
        match self {
            AskUserQuestionAnswer::Option { notes, .. } => text::borrowed_opt(notes),
            AskUserQuestionAnswer::Multi { notes, .. } => text::borrowed_opt(notes),
            AskUserQuestionAnswer::Custom { notes, .. } => text::borrowed_opt(notes),
        }
    }
}

/// The labels of selections.
pub open spec fn labels(selected: Seq<AskUserQuestionSelection>) -> Seq<Seq<char>> {
    Seq::new(selected.len(), |i: int| selected[i].label@)
}

/// What an answer says, its header left out.
pub open spec fn answer_body(a: AskUserQuestionAnswer) -> Seq<char> {
    match a {
        AskUserQuestionAnswer::Option { index, label, .. } => ": user selected: "@ + text::decimal(
            (index + 1) as nat,
        ) + ". "@ + label@,
        AskUserQuestionAnswer::Multi { selected, .. } => ": user selected: "@ + text::join(
            labels(selected@),
            ", "@,
        ),
        AskUserQuestionAnswer::Custom { text, .. } => ": user wrote: "@ + text@,
    }
}

/// The notes of an answer, in brackets.
pub open spec fn notes_text(a: AskUserQuestionAnswer) -> Seq<char> {
    match notes_of(a) {
        Some(notes) => " ("@ + notes + ")"@,
        None => Seq::empty(),
    }
}

/// The line for an answer.
pub open spec fn answer_line(questions: Seq<QuestionView>, a: AskUserQuestionAnswer) -> Seq<char> {
    let i = index_of(a) as int;
    let header = if i < questions.len() {
        header_of(questions[i], i)
    } else {
        default_header(i)
    };
    header + answer_body(a) + notes_text(a)
}

/// The lines for answers.
pub open spec fn answer_lines(
    questions: Seq<QuestionView>,
    answers: Seq<AskUserQuestionAnswer>,
) -> Seq<Seq<char>> {
    Seq::new(answers.len(), |i: int| answer_line(questions, answers[i]))
}

/// Whether the numbers of an answer can be counted from one.
pub open spec fn is_countable(a: AskUserQuestionAnswer) -> bool {
    &&& index_of(a) < usize::MAX
    &&& a matches AskUserQuestionAnswer::Option { index, .. } ==> index < usize::MAX
}

/// The line for an answer.
fn render_answer(questions: &[AskUserQuestion], answer: &AskUserQuestionAnswer) -> (r: String)
    requires
        is_countable(*answer),
    ensures
        r@ == answer_line(question_views(questions@), *answer),
{
    let i: usize = answer.question_index();
    let ghost views = question_views(questions@);
    let header = if i < questions.len() {
        assert(views[i as int] == questions@[i as int]@);
        questions[i].display_header(i)
    } else {
        cat2("Q", decimal_of_usize(i + 1).as_str())
    };
    let notes = match answer.notes() {
        Some(notes) => cat3(" (", notes, ")"),
        None => String::new(),
    };
    assert(notes@ =~= notes_text(*answer));
    let body = match answer {
        AskUserQuestionAnswer::Option { index, label, .. } => cat4(
            ": user selected: ",
            decimal_of_usize(*index + 1).as_str(),
            ". ",
            label.as_str(),
        ),
        AskUserQuestionAnswer::Multi { selected, .. } => {
            let mut parts: Vec<String> = Vec::new();
            let mut k: usize = 0;
            assert(text::texts(parts@) =~= labels(selected@).take(0));
            while k < selected.len()
                invariant
                    k <= selected@.len(),
                    text::texts(parts@) == labels(selected@).take(k as int),
                decreases selected@.len() - k,
            {
                let label = owned(selected[k].label.as_str());
                proof {
                    text::lemma_texts_push(parts@, label);
                    assert(labels(selected@).take(k + 1) =~= labels(selected@).take(
                        k as int,
                    ).push(label@));
                }
                parts.push(label);
                k = k + 1;
            }
            assert(labels(selected@).take(selected@.len() as int) =~= labels(selected@));
            cat2(": user selected: ", join_texts(&parts, ", ").as_str())
        },
        AskUserQuestionAnswer::Custom { text, .. } => cat2(": user wrote: ", text.as_str()),
    };
    cat3(header.as_str(), body.as_str(), notes.as_str())
}

/// Answers as the model is told them: a line for each answered question.
pub fn format_answers(questions: &[AskUserQuestion], answers: &[AskUserQuestionAnswer]) -> (r: String)
    requires
        forall|i: int| 0 <= i < answers@.len() ==> is_countable(#[trigger] answers@[i]),
    ensures
        r@ == text::join(answer_lines(question_views(questions@), answers@), "\n"@),
{
    let ghost views = question_views(questions@);
    let ghost all = answer_lines(views, answers@);
    let mut lines: Vec<String> = Vec::new();
    let mut k: usize = 0;
    assert(text::texts(lines@) =~= all.take(0));
    while k < answers.len()
        invariant
            k <= answers@.len(),
            views == question_views(questions@),
            all == answer_lines(views, answers@),
            forall|i: int| 0 <= i < answers@.len() ==> is_countable(#[trigger] answers@[i]),
            text::texts(lines@) == all.take(k as int),
        decreases answers@.len() - k,
    {
        let line = render_answer(questions, &answers[k]);
        proof {
            text::lemma_texts_push(lines@, line);
            assert(all.take(k + 1) =~= all.take(k as int).push(line@));
        }
        lines.push(line);
        k = k + 1;
    }
    assert(all.take(all.len() as int) =~= all);
    join_texts(&lines, "\n")
}

// ---------------------------------------------------------------------------
// Laws
// ---------------------------------------------------------------------------

/// Whether an option obeys the rules.
pub open spec fn is_valid_option(o: OptionView) -> bool {
    0 < bare_label(o.label).len() && o.label.len() <= MAX_LABEL_LENGTH && !is_reserved(o.label)
}

/// Whether a question obeys the rules.
pub open spec fn is_valid_question(q: QuestionView) -> bool {
    &&& MIN_OPTIONS <= q.options.len() <= MAX_OPTIONS
    &&& recommended_count(q.options) <= 1
    &&& q.header matches Some(header) ==> header.len() <= MAX_HEADER_LENGTH
    &&& forall|i: int| 0 <= i < q.options.len() ==> is_valid_option(#[trigger] q.options[i])
}

/// Whether a questionnaire obeys the rules.
pub open spec fn is_valid(questions: Seq<QuestionView>) -> bool {
    &&& MIN_QUESTIONS <= questions.len() <= MAX_QUESTIONS
    &&& forall|i: int| 0 <= i < questions.len() ==> is_valid_question(#[trigger] questions[i])
}

proof fn lemma_options_errors(prefix: Seq<char>, options: Seq<OptionView>, k: int)
    requires
        0 <= k,
    ensures
        options_errors(prefix, options, k).len() == 0 <==> forall|i: int|
            k <= i < options.len() ==> is_valid_option(#[trigger] options[i]),
    decreases options.len() - k,
{
    if k < options.len() {
        lemma_options_errors(prefix, options, k + 1);
        assert(option_errors(prefix, options[k]).len() == 0 <==> is_valid_option(options[k]));
    }
}

proof fn lemma_questions_errors(questions: Seq<QuestionView>, k: int)
    requires
        0 <= k,
    ensures
        questions_errors(questions, k).len() == 0 <==> forall|i: int|
            k <= i < questions.len() ==> is_valid_question(#[trigger] questions[i]),
    decreases questions.len() - k,
{
    if k < questions.len() {
        lemma_questions_errors(questions, k + 1);
        lemma_options_errors(error_prefix(questions[k], k), questions[k].options, 0);
        assert(question_errors(questions[k], k).len() == 0 <==> is_valid_question(questions[k]));
    }
}

/// There are no errors exactly where a questionnaire obeys the rules.
pub proof fn law_no_errors_means_valid(questions: Seq<QuestionView>)
    ensures
        all_errors(questions).len() == 0 <==> is_valid(questions),
{
    lemma_questions_errors(questions, 0);
}

proof fn lemma_recommended_from(options: Seq<OptionView>, k: int)
    requires
        0 <= k,
    ensures
        match recommended_from(options, k) {
            Some(i) => k <= i < options.len() && is_recommended(options[i]) && forall|j: int|
                k <= j < i ==> !is_recommended(#[trigger] options[j]),
            None => forall|j: int| k <= j < options.len() ==> !is_recommended(#[trigger] options[j]),
        },
    decreases options.len() - k,
{
    if k < options.len() && !is_recommended(options[k]) {
        lemma_recommended_from(options, k + 1);
    }
}

proof fn lemma_count_positive(options: Seq<OptionView>, i: int)
    requires
        0 <= i < options.len(),
        is_recommended(options[i]),
    ensures
        recommended_count(options) >= 1,
        recommended_count(options) == 1 ==> forall|j: int|
            0 <= j < options.len() && j != i ==> !is_recommended(#[trigger] options[j]),
    decreases options.len(),
{
    let front = options.drop_last();
    if i == options.len() - 1 {
        assert forall|j: int|
            0 <= j < options.len() && j != i && is_recommended(#[trigger] options[j]) implies recommended_count(
            options) >= 2 by {
            assert(front[j] == options[j]);
            lemma_count_positive(front, j);
        }
    } else {
        assert(front[i] == options[i]);
        lemma_count_positive(front, i);
        assert forall|j: int|
            0 <= j < options.len() && j != i && is_recommended(#[trigger] options[j]) implies recommended_count(
            options) >= 2 by {
            if j < options.len() - 1 {
                assert(front[j] == options[j]);
            }
        }
    }
}

/// In a valid question with a recommended option, normal form puts that option
/// first and leaves no other marked.
pub proof fn law_recommended_option_comes_first(q: QuestionView, index: int, i: int)
    requires
        recommended_count(q.options) <= 1,
        0 <= i < q.options.len(),
        is_recommended(q.options[i]),
    ensures
        normal_question(q, index).options.len() == q.options.len(),
        normal_question(q, index).options[0] == normal_option(q.options[i]),
        forall|j: int|
            1 <= j < q.options.len() ==> (#[trigger] normal_question(
                q,
                index,
            ).options[j]).recommended is None,
{
    let options = normal_options(q.options);
    lemma_count_positive(q.options, i);
    lemma_recommended_from(options, 0);
    assert(is_recommended(options[i]));
    let k = recommended_from(options, 0)->0;
    assert(is_recommended(q.options[k]));
    assert(k == i);
    let after = normal_question(q, index).options;
    assert(after =~= seq![options[k]] + options.remove(k));
    assert forall|j: int| 1 <= j < q.options.len() implies (
    #[trigger] after[j]).recommended is None by {
        let from = if j <= k {
            j - 1
        } else {
            j
        };
        assert(after[j] == options[from]);
        assert(!is_recommended(q.options[from]));
    }
}

/// Whether taking the painted suffix off a label once takes it off for good.
pub open spec fn strips_clean(label: Seq<char>) -> bool {
    bare_label(bare_label(label)) == bare_label(label)
}

proof fn lemma_normal_question_stable(q: QuestionView, index: int)
    requires
        forall|i: int| 0 <= i < q.options.len() ==> strips_clean((#[trigger] q.options[i]).label),
    ensures
        normal_question(normal_question(q, index), index) == normal_question(q, index),
{
    let options = normal_options(q.options);
    let once = recommended_first(options);
    lemma_recommended_from(options, 0);
    assert forall|i: int| 0 <= i < options.len() implies normal_option(#[trigger] options[i])
        == options[i] by {
        assert(strips_clean(q.options[i].label));
    }
    match recommended_from(options, 0) {
        Some(k) => {
            assert forall|i: int| 0 <= i < once.len() implies normal_option(#[trigger] once[i])
                == once[i] by {
                let from = if i == 0 {
                    k
                } else if i <= k {
                    i - 1
                } else {
                    i
                };
                assert(once[i] == options[from]);
            }
            assert(normal_options(once) =~= once);
            assert(is_recommended(once[0]));
            assert(recommended_from(once, 0) == Some(0int));
            assert(seq![once[0]] + once.remove(0) =~= once);
        },
        None => {
            assert(normal_options(once) =~= once);
            assert(recommended_first(once) == once);
        },
    }
    assert(normal_question(normal_question(q, index), index) =~= normal_question(q, index));
}

/// Normal form is final: putting questions in it twice is putting them in it
/// once, as long as no label ends in the painted suffix twice over.
pub proof fn law_normal_form_is_final(questions: Seq<QuestionView>)
    requires
        forall|i: int, j: int|
            0 <= i < questions.len() && 0 <= j < questions[i].options.len() ==> strips_clean(
                (#[trigger] questions[i].options[j]).label,
            ),
    ensures
        normal_questions(normal_questions(questions)) == normal_questions(questions),
{
    assert forall|i: int| 0 <= i < questions.len() implies normal_questions(
        normal_questions(questions),
    )[i] == normal_questions(questions)[i] by {
        assert forall|j: int| 0 <= j < questions[i].options.len() implies strips_clean(
            (#[trigger] questions[i].options[j]).label,
        ) by {}
        lemma_normal_question_stable(questions[i], i);
    }
    assert(normal_questions(normal_questions(questions)) =~= normal_questions(questions));
}

// ---------------------------------------------------------------------------
// Asking on a terminal
// ---------------------------------------------------------------------------

/// The line for an option.
pub open spec fn option_line(o: OptionView, number: nat) -> Seq<char> {
    "  "@ + text::decimal(number) + ". "@ + o.label + (match o.description {
        Some(description) => " — "@ + description,
        None => Seq::empty(),
    }) + "\n"@
}

/// The lines for the options from the `k`-th on.
pub open spec fn option_lines(options: Seq<OptionView>, k: int) -> Seq<char>
    decreases options.len() - k,
{
    if k >= options.len() {
        Seq::empty()
    } else {
        option_line(options[k], (k + 1) as nat) + option_lines(options, k + 1)
    }
}

/// How to answer.
pub open spec fn answer_hint(q: QuestionView) -> Seq<char> {
    if is_multi(q) {
        "Enter numbers separated by commas, or type an answer"@
    } else {
        "Enter a number, or type an answer"@
    }
}

/// What is shown before the answer to the question at `index` is read.
pub open spec fn prompt(q: QuestionView, index: int) -> Seq<char> {
    "\n["@ + header_of(q, index) + "] "@ + q.question + "\n"@ + option_lines(q.options, 0)
        + "  "@ + text::decimal(q.options.len() + 1) + ". "@ + FREE_TEXT_LABEL@ + "\n"@
        + answer_hint(q) + " [1-"@ + text::decimal(q.options.len() + 1) + ", or 'cancel']: "@
}

/// What is shown before the answer to the question at `index` is read.
pub fn question_prompt(q: &AskUserQuestion, index: usize) -> (r: String)
    requires
        index < usize::MAX,
        q.options@.len() < usize::MAX,
    ensures
        r@ == prompt(q@, index as int),
{
    let mut out = String::new();
    let count: usize = q.options.len();
    let last = decimal_of_usize(count + 1);
    out.append("\n[");
    out.append(q.display_header(index).as_str());
    out.append("] ");
    out.append(q.question.as_str());
    out.append("\n");
    let ghost head = out@;
    let ghost options = q@.options;
    let ghost all = option_lines(options, 0);
    let ghost mut done: Seq<char> = Seq::empty();
    let mut k: usize = 0;
    proof {
        assert(head =~= "\n["@ + header_of(q@, index as int) + "] "@ + q@.question + "\n"@);
        assert(head + done =~= head);
        assert(done + option_lines(options, 0) =~= all);
    }
    while k < q.options.len()
        invariant
            k <= q.options@.len(),
            count == q.options@.len(),
            options == q@.options,
            all == option_lines(options, 0),
            out@ == head + done,
            done + option_lines(options, k as int) == all,
        decreases q.options@.len() - k,
    {
        let ghost before = out@;
        let option = &q.options[k];
        assert(options[k as int] == option@);
        out.append("  ");
        out.append(decimal_of_usize(k + 1).as_str());
        out.append(". ");
        out.append(option.label.as_str());
        if let Some(description) = &option.description {
            out.append(" — ");
            out.append(description.as_str());
        }
        out.append("\n");
        proof {
            let line = option_line(options[k as int], (k + 1) as nat);
            assert(out@ =~= before + line);
            let rest = option_lines(options, k + 1);
            assert(done + (line + rest) =~= (done + line) + rest);
            assert(head + done + line =~= head + (done + line));
            done = done + line;
        }
        k = k + 1;
    }
    assert(done =~= all);
    out.append("  ");
    out.append(last.as_str());
    out.append(". ");
    out.append(FREE_TEXT_LABEL);
    out.append("\n");
    if q.is_multi_select() {
        out.append("Enter numbers separated by commas, or type an answer");
    } else {
        out.append("Enter a number, or type an answer");
    }
    out.append(" [1-");
    out.append(last.as_str());
    out.append(", or 'cancel']: ");
    assert(out@ =~= prompt(q@, index as int));
    out
}

/// The option that a token names by its number.
pub open spec fn named_option(token: Seq<char>, count: nat) -> Option<int> {
    match text::parse_number(text::trim(token), usize::MAX as nat) {
        Some(n) => if 1 <= n <= count {
            Some(n - 1)
        } else {
            None
        },
        None => None,
    }
}

/// The options that the tokens from the `k`-th on name.
pub open spec fn named_options(tokens: Seq<Seq<char>>, count: nat, k: int) -> Seq<int>
    decreases tokens.len() - k,
{
    if k >= tokens.len() {
        Seq::empty()
    } else {
        match named_option(tokens[k], count) {
            Some(i) => seq![i] + named_options(tokens, count, k + 1),
            None => named_options(tokens, count, k + 1),
        }
    }
}

/// Whether a line ends the questionnaire; `line` has no surrounding space.
pub open spec fn is_cancel(line: Seq<char>) -> bool {
    let lower = text::lowered(line);
    lower == "cancel"@ || lower == "quit"@
}

/// Whether selections are the options at those positions.
pub open spec fn selects(
    selected: Seq<AskUserQuestionSelection>,
    options: Seq<OptionView>,
    positions: Seq<int>,
) -> bool {
    selected.len() == positions.len() && forall|i: int|
        0 <= i < selected.len() ==> (#[trigger] selected[i]).index == positions[i]
            && selected[i].label@ == options[positions[i]].label
}

/// Whether an answer is what a line says: several numbers, each of an option,
/// for a question with several answers, one number, or free text.
pub open spec fn is_answer(
    a: AskUserQuestionAnswer,
    q: QuestionView,
    index: usize,
    line: Seq<char>,
) -> bool {
    let tokens = text::split(line, ',');
    let several = named_options(tokens, q.options.len(), 0);
    let one = named_option(line, q.options.len());
    if is_multi(q) && tokens.len() > 1 && several.len() == tokens.len() {
        a matches AskUserQuestionAnswer::Multi { question_index, selected, notes } && question_index
            == index && notes is None && selects(selected@, q.options, several)
    } else if one is Some {
        a matches AskUserQuestionAnswer::Option { question_index, index: i, label, notes }
            && question_index == index && i == one->0 && label@ == q.options[one->0].label
            && notes is None
    } else {
        a matches AskUserQuestionAnswer::Custom { question_index, text, notes } && question_index
            == index && text@ == line && notes is None
    }
}

/// The option that a token names by its number.
fn parse_option(token: &str, count: usize) -> (r: Option<usize>)
    ensures
        match named_option(token@, count as nat) {
            Some(i) => r is Some && r->0 == i && i < count,
            None => r is None,
        },
{
    match text::parse_u64(text::trimmed(token), usize::MAX as u64) {
        Some(n) => {
            if n >= 1 && n <= count as u64 {
                Some((n - 1) as usize)
            } else {
                None
            }
        },
        None => None,
    }
}

proof fn lemma_named_options(tokens: Seq<Seq<char>>, count: nat, k: int)
    requires
        0 <= k,
    ensures
        forall|i: int|
            0 <= i < named_options(tokens, count, k).len() ==> 0 <= #[trigger] named_options(
                tokens,
                count,
                k,
            )[i] < count,
    decreases tokens.len() - k,
{
    if k < tokens.len() {
        lemma_named_options(tokens, count, k + 1);
        let all = named_options(tokens, count, k);
        if let Some(first) = named_option(tokens[k], count) {
            assert forall|i: int| 0 <= i < all.len() implies 0 <= #[trigger] all[i] < count by {
                if i > 0 {
                    assert(all[i] == named_options(tokens, count, k + 1)[i - 1]);
                }
            }
        }
    }
}

/// The options that tokens name, as selections.
fn parse_selections(q: &AskUserQuestion, tokens: &Vec<String>) -> (r: Vec<AskUserQuestionSelection>)
    ensures
        selects(
            r@,
            q@.options,
            named_options(text::texts(tokens@), q@.options.len(), 0),
        ),
{
    let count: usize = q.options.len();
    let ghost names = text::texts(tokens@);
    let ghost all = named_options(names, count as nat, 0);
    let ghost mut done: Seq<int> = Seq::empty();
    let mut r: Vec<AskUserQuestionSelection> = Vec::new();
    let mut k: usize = 0;
    assert(done + named_options(names, count as nat, 0) =~= all);
    while k < tokens.len()
        invariant
            k <= tokens@.len(),
            count == q.options@.len(),
            names == text::texts(tokens@),
            selects(r@, q@.options, done),
            done + named_options(names, count as nat, k as int) == all,
        decreases tokens@.len() - k,
    {
        assert(names[k as int] == tokens@[k as int]@);
        if let Some(i) = parse_option(tokens[k].as_str(), count) {
            let ghost before = r@;
            let label = owned(q.options[i].label.as_str());
            assert(q@.options[i as int] == q.options@[i as int]@);
            r.push(AskUserQuestionSelection { index: i, label });
            proof {
                let rest = named_options(names, count as nat, k + 1);
                assert(done + (seq![i as int] + rest) =~= done.push(i as int) + rest);
                let was = done;
                done = done.push(i as int);
                assert forall|j: int| 0 <= j < r@.len() implies (#[trigger] r@[j]).index == done[j]
                    && r@[j].label@ == q@.options[done[j]].label by {
                    if j < before.len() {
                        assert(r@[j] == before[j]);
                        assert(done[j] == was[j]);
                    }
                }
            }
        }
        k = k + 1;
    }
    assert(done =~= all);
    r
}

/// What a line says to the question at `index`: nothing where it, or the end
/// of the input, ends the questionnaire.
pub fn read_answer(q: &AskUserQuestion, index: usize, line: Option<&str>) -> (r: Option<
    AskUserQuestionAnswer,
>)
    ensures
        match line {
            None => r is None,
            Some(line) => if is_cancel(text::trim(line@)) {
                r is None
            } else {
                r is Some && is_answer(r->0, q@, index, text::trim(line@))
            },
        },
{
    let raw = match line {
        Some(raw) => raw,
        None => return None,
    };
    let line = text::trimmed(raw);
    let lower_text = text::to_ascii_lower(line);
    let lower = lower_text.as_str();
    if str_eq(lower, "cancel") || str_eq(lower, "quit") {
        return None;
    }
    if q.is_multi_select() {
        let tokens = text::split_on(line, ',');
        let selected = parse_selections(q, &tokens);
        if tokens.len() > 1 && selected.len() == tokens.len() {
            return Some(
                AskUserQuestionAnswer::Multi { question_index: index, selected, notes: None },
            );
        }
    }
    match parse_option(line, q.options.len()) {
        Some(i) => {
            assert(q@.options[i as int] == q.options@[i as int]@);
            Some(
                AskUserQuestionAnswer::Option {
                    question_index: index,
                    index: i,
                    label: owned(q.options[i].label.as_str()),
                    notes: None,
                },
            )
        },
        None => Some(
            AskUserQuestionAnswer::Custom { question_index: index, text: owned(line), notes: None },
        ),
    }
}

/// How many of the questions the lines answer: up to the first line that
/// ends the questionnaire, or the end of the lines.
pub open spec fn answered_count(lines: Seq<Seq<char>>, questions: nat, k: int) -> int
    decreases questions - k,
{
    if k >= questions || k >= lines.len() || is_cancel(text::trim(lines[k])) {
        k
    } else {
        answered_count(lines, questions, k + 1)
    }
}

/// The questionnaire that lines of input answer: a line for each question.
/// It is cancelled where a line says so or the lines run out; the answers so
/// far are kept.
pub fn collect_answers(questions: &[AskUserQuestion], lines: &[String]) -> (r: AskUserQuestionResult)
    ensures
        r.answers@.len() == answered_count(text::texts(lines@), questions@.len(), 0),
        r.cancelled == (r.answers@.len() < questions@.len()),
        forall|i: int|
            0 <= i < r.answers@.len() ==> is_answer(
                #[trigger] r.answers@[i],
                questions@[i]@,
                i as usize,
                text::trim(lines@[i]@),
            ),
{
    let ghost texts = text::texts(lines@);
    let mut answers: Vec<AskUserQuestionAnswer> = Vec::new();
    let mut k: usize = 0;
    while k < questions.len()
        invariant
            k <= questions@.len(),
            k <= lines@.len(),
            answers@.len() == k,
            texts == text::texts(lines@),
            answered_count(texts, questions@.len(), 0) == answered_count(
                texts,
                questions@.len(),
                k as int,
            ),
            forall|i: int|
                0 <= i < k ==> is_answer(
                    #[trigger] answers@[i],
                    questions@[i]@,
                    i as usize,
                    text::trim(lines@[i]@),
                ),
        decreases questions@.len() - k,
    {
        let line = if k < lines.len() {
            Some(lines[k].as_str())
        } else {
            None
        };
        match read_answer(&questions[k], k, line) {
            None => return AskUserQuestionResult { cancelled: true, answers },
            Some(answer) => answers.push(answer),
        }
        k = k + 1;
    }
    AskUserQuestionResult { cancelled: false, answers }
}

// ---------------------------------------------------------------------------
// Laws
// ---------------------------------------------------------------------------

/// Normal form keeps the text of a question and whether several of its options
/// may be selected. A header is kept, and a missing one becomes the number of
/// the question. The options stay what they are and as many; each keeps its
/// description, its preview and whether it is recommended.
pub proof fn law_normal_form_keeps_the_question(q: QuestionView, index: int)
    ensures
        normal_question(q, index).question == q.question,
        normal_question(q, index).multi_select == q.multi_select,
        is_multi(normal_question(q, index)) == is_multi(q),
        q.header is Some ==> normal_question(q, index).header == q.header,
        q.header is None && index >= 0 ==> normal_question(q, index).header == Some(
            seq!['Q'] + text::decimal((index + 1) as nat),
        ),
        normal_question(q, index).options.to_multiset() == q.options.map_values(
            |o: OptionView| normal_option(o),
        ).to_multiset(),
        normal_question(q, index).options.len() == q.options.len(),
{
    reveal_strlit("Q");
    assert("Q"@ =~= seq!['Q']);
    let options = normal_options(q.options);
    assert(q.options.map_values(|o: OptionView| normal_option(o)) =~= options);
    lemma_recommended_from(options, 0);
    if let Some(k) = recommended_from(options, 0) {
        let front = options.take(k);
        let one = seq![options[k]];
        let back = options.skip(k + 1);
        assert(options =~= front + (one + back));
        assert(options.remove(k) =~= front + back);
        vstd::seq_lib::lemma_multiset_commutative(front, one + back);
        vstd::seq_lib::lemma_multiset_commutative(one, back);
        vstd::seq_lib::lemma_multiset_commutative(one, front + back);
        vstd::seq_lib::lemma_multiset_commutative(front, back);
        assert(recommended_first(options).to_multiset() =~= options.to_multiset());
        options.to_multiset_ensures();
    }
}

/// An option in normal form is the option: only a painted suffix is gone from
/// its label, and a recommendation that says no.
pub proof fn law_normal_options_are_the_options(o: OptionView, label: Seq<char>)
    ensures
        normal_option(o).description == o.description,
        normal_option(o).preview == o.preview,
        is_recommended(normal_option(o)) <==> o.recommended == Some(true),
        normal_option(o).recommended != Some(false),
        normal_option(OptionView { label: label + RECOMMENDED_SUFFIX@, ..o }).label == label,
        !text::ends_with(o.label, RECOMMENDED_SUFFIX@) ==> normal_option(o).label == o.label,
{
    text::law_stripping_undoes_putting(label, RECOMMENDED_SUFFIX@);
    text::law_stripping_undoes_putting(o.label, RECOMMENDED_SUFFIX@);
}

/// The first recommended option comes to the front and the others keep their
/// order; without one all options stay where they are.
pub proof fn law_other_options_keep_their_order(q: QuestionView, index: int, k: int)
    requires
        0 <= k < q.options.len(),
    ensures
        (forall|i: int| 0 <= i < q.options.len() ==> (#[trigger] q.options[i]).recommended != Some(
            true,
        )) ==> normal_question(q, index).options[k] == normal_option(q.options[k]),
        q.options[k].recommended == Some(true) && (forall|i: int|
            0 <= i < k ==> (#[trigger] q.options[i]).recommended != Some(true)) ==> {
            let after = normal_question(q, index).options;
            &&& after[0] == normal_option(q.options[k])
            &&& forall|i: int| 0 < i <= k ==> #[trigger] after[i] == normal_option(q.options[i - 1])
            &&& forall|i: int|
                k < i < q.options.len() ==> #[trigger] after[i] == normal_option(q.options[i])
        },
{
    let options = normal_options(q.options);
    lemma_recommended_from(options, 0);
    assert forall|i: int| 0 <= i < options.len() implies is_recommended(#[trigger] options[i]) == (
    q.options[i].recommended == Some(true)) by {}
    if q.options[k].recommended == Some(true) && (forall|i: int|
        0 <= i < k ==> (#[trigger] q.options[i]).recommended != Some(true)) {
        assert(is_recommended(options[k]));
        let j = recommended_from(options, 0)->0;
        if j < k {
            assert(q.options[j].recommended != Some(true));
        }
        assert(j == k);
        let after = normal_question(q, index).options;
        assert(after =~= seq![options[k]] + options.remove(k));
    } else if forall|i: int|
        0 <= i < q.options.len() ==> (#[trigger] q.options[i]).recommended != Some(true) {
        if let Some(j) = recommended_from(options, 0) {
            assert(q.options[j].recommended != Some(true));
        }
    }
}

/// Every question has its number by its place, and errors of later questions
/// come behind those of earlier ones.
pub proof fn law_errors_come_question_by_question(questions: Seq<QuestionView>, q: QuestionView)
    ensures
        questions_errors(questions.push(q), 0) == questions_errors(questions, 0)
            + question_errors(q, questions.len() as int),
        questions_errors(Seq::empty(), 0).len() == 0,
{
    lemma_errors_push(questions, q, 0);
}

proof fn lemma_errors_push(questions: Seq<QuestionView>, q: QuestionView, k: int)
    requires
        0 <= k <= questions.len(),
    ensures
        questions_errors(questions.push(q), k) == questions_errors(questions, k) + question_errors(
            q,
            questions.len() as int,
        ),
    decreases questions.len() - k,
{
    let all = questions.push(q);
    if k < questions.len() {
        lemma_errors_push(questions, q, k + 1);
        assert(all[k] == questions[k]);
        assert(questions_errors(all, k) =~= questions_errors(questions, k) + question_errors(
            q,
            questions.len() as int,
        ));
    } else {
        assert(all[k] == q);
        assert(questions_errors(all, k + 1) =~= Seq::empty());
        assert(questions_errors(all, k) =~= questions_errors(questions, k) + question_errors(
            q,
            questions.len() as int,
        ));
    }
}

proof fn lemma_option_errors_push(
    prefix: Seq<char>,
    options: Seq<OptionView>,
    o: OptionView,
    k: int,
)
    requires
        0 <= k <= options.len(),
    ensures
        options_errors(prefix, options.push(o), k) == options_errors(prefix, options, k)
            + option_errors(prefix, o),
    decreases options.len() - k,
{
    let all = options.push(o);
    if k < options.len() {
        lemma_option_errors_push(prefix, options, o, k + 1);
        assert(all[k] == options[k]);
    } else {
        assert(all[k] == o);
        assert(options_errors(prefix, all, k + 1) =~= Seq::empty());
    }
    assert(options_errors(prefix, all, k) =~= options_errors(prefix, options, k) + option_errors(
        prefix,
        o,
    ));
}

/// One more option adds one error for each rule that it breaks: a label that is
/// nothing but the painted suffix or empty, one of more than sixty characters,
/// and one that the client shows itself.
pub proof fn law_every_broken_rule_of_an_option_is_told(
    prefix: Seq<char>,
    options: Seq<OptionView>,
    o: OptionView,
)
    ensures
        options_errors(prefix, options.push(o), 0).len() - options_errors(prefix, options, 0).len()
            == (if o.label.len() == 0 || o.label == RECOMMENDED_SUFFIX@ {
            1int
        } else {
            0int
        }) + (if o.label.len() > 60 {
            1int
        } else {
            0int
        }) + (if o.label == "Other"@ || o.label == "Type something."@ {
            1int
        } else {
            0int
        }),
        options_errors(prefix, Seq::empty(), 0).len() == 0,
{
    lemma_option_errors_push(prefix, options, o, 0);
    text::law_stripping_undoes_putting(o.label, RECOMMENDED_SUFFIX@);
    text::law_stripping_undoes_putting(Seq::empty(), RECOMMENDED_SUFFIX@);
    reveal_strlit(" (Recommended)");
    assert(Seq::<char>::empty() + RECOMMENDED_SUFFIX@ =~= RECOMMENDED_SUFFIX@);
    if bare_label(o.label).len() == 0 {
        assert(bare_label(o.label) =~= Seq::empty());
        if text::ends_with(o.label, RECOMMENDED_SUFFIX@) {
            assert(o.label =~= RECOMMENDED_SUFFIX@);
        }
    }
    if o.label.len() == 0 {
        assert(!text::ends_with(o.label, RECOMMENDED_SUFFIX@));
    }
}

/// A question has one error for each of its own rules that it breaks: between
/// one and four options, at most one of them recommended, and a header of at
/// most twelve characters. The errors of its options come behind.
pub proof fn law_every_broken_rule_of_a_question_is_told(q: QuestionView, index: int)
    ensures
        question_errors(q, index).len() == (if 1 <= q.options.len() <= 4 {
            0int
        } else {
            1int
        }) + (if q.options.filter(|o: OptionView| o.recommended == Some(true)).len() > 1 {
            1int
        } else {
            0int
        }) + (if q.header matches Some(header) && header.len() > 12 {
            1int
        } else {
            0int
        }) + options_errors(error_prefix(q, index), q.options, 0).len(),
{
    lemma_recommended_filter(q.options);
}

proof fn lemma_recommended_filter(options: Seq<OptionView>)
    ensures
        recommended_count(options) == options.filter(
            |o: OptionView| o.recommended == Some(true),
        ).len(),
    decreases options.len(),
{
    reveal(Seq::filter);
    if options.len() > 0 {
        lemma_recommended_filter(options.drop_last());
    }
}

/// There are one to four questions in a questionnaire; any other number is one
/// error more, in front of the others.
pub proof fn law_the_number_of_questions_is_told(questions: Seq<QuestionView>)
    ensures
        all_errors(questions).len() == questions_errors(questions, 0).len() + if 1
            <= questions.len() <= 4 {
            0int
        } else {
            1int
        },
        1 <= questions.len() <= 4 ==> all_errors(questions) == questions_errors(questions, 0),
        !(1 <= questions.len() <= 4) ==> all_errors(questions).drop_first() == questions_errors(
            questions,
            0,
        ),
{
    let rest = questions_errors(questions, 0);
    if 1 <= questions.len() <= 4 {
        assert(all_errors(questions) =~= rest);
    } else {
        assert(all_errors(questions).drop_first() =~= rest);
    }
}

/// Whether every error begins with `prefix`.
pub open spec fn all_begin(errors: Seq<Seq<char>>, prefix: Seq<char>) -> bool {
    forall|i: int| 0 <= i < errors.len() ==> text::starts_with(#[trigger] errors[i], prefix)
}

proof fn lemma_all_begin(a: Seq<Seq<char>>, b: Seq<Seq<char>>, prefix: Seq<char>)
    requires
        all_begin(a, prefix),
        all_begin(b, prefix),
    ensures
        all_begin(a + b, prefix),
{
    assert forall|i: int| 0 <= i < (a + b).len() implies text::starts_with(
        #[trigger] (a + b)[i],
        prefix,
    ) by {
        if i < a.len() {
            assert((a + b)[i] == a[i]);
        } else {
            assert((a + b)[i] == b[i - a.len()]);
        }
    }
}

proof fn lemma_error_begins(applies: bool, prefix: Seq<char>, rest: Seq<char>, e: Seq<char>)
    requires
        e == prefix + rest,
    ensures
        all_begin(error_if(applies, e), prefix),
{
    text::law_stripping_undoes_putting(rest, prefix);
}

proof fn lemma_option_begins(prefix: Seq<char>, o: OptionView)
    ensures
        all_begin(option_errors(prefix, o), prefix),
{
    let a = prefix + ": option label is empty after removing the "@ + RECOMMENDED_SUFFIX@
        + " suffix"@;
    let b = prefix + ": option label \""@ + o.label + "\" is "@ + text::decimal(o.label.len())
        + " chars (max "@ + text::decimal(MAX_LABEL_LENGTH as nat) + ")"@;
    let c = prefix + ": option label \""@ + o.label
        + "\" is reserved (the client appends the free-text row automatically)"@;
    let n = prefix.len() as int;
    assert(a =~= prefix + a.skip(n));
    assert(b =~= prefix + b.skip(n));
    assert(c =~= prefix + c.skip(n));
    let x = error_if(bare_label(o.label).len() == 0, a);
    let y = error_if(o.label.len() > MAX_LABEL_LENGTH, b);
    let z = error_if(is_reserved(o.label), c);
    lemma_error_begins(bare_label(o.label).len() == 0, prefix, a.skip(n), a);
    lemma_error_begins(o.label.len() > MAX_LABEL_LENGTH, prefix, b.skip(n), b);
    lemma_error_begins(is_reserved(o.label), prefix, c.skip(n), c);
    lemma_all_begin(x, y, prefix);
    lemma_all_begin(x + y, z, prefix);
}

proof fn lemma_options_begin(prefix: Seq<char>, options: Seq<OptionView>, k: int)
    requires
        0 <= k,
    ensures
        all_begin(options_errors(prefix, options, k), prefix),
    decreases options.len() - k,
{
    if k < options.len() {
        lemma_options_begin(prefix, options, k + 1);
        lemma_option_begins(prefix, options[k]);
        lemma_all_begin(
            option_errors(prefix, options[k]),
            options_errors(prefix, options, k + 1),
            prefix,
        );
    }
}

/// Every error of a question begins with the number of the question and its
/// header.
pub proof fn law_errors_name_their_question(q: QuestionView, index: int)
    requires
        0 <= index,
    ensures
        all_begin(
            question_errors(q, index),
            "question "@ + text::decimal((index + 1) as nat) + " ("@ + header_of(q, index) + ")"@,
        ),
{
    let prefix = error_prefix(q, index);
    let n = prefix.len() as int;
    let a = prefix + ": expected "@ + text::decimal(MIN_OPTIONS as nat) + "-"@ + text::decimal(
        MAX_OPTIONS as nat,
    ) + " options, got "@ + text::decimal(q.options.len());
    let b = prefix + ": at most one recommended option, got "@ + text::decimal(
        recommended_count(q.options),
    );
    let c = prefix + ": header \""@ + q.header->0 + "\" is "@ + text::decimal(q.header->0.len())
        + " chars (max "@ + text::decimal(MAX_HEADER_LENGTH as nat) + ")"@;
    assert(a =~= prefix + a.skip(n));
    assert(b =~= prefix + b.skip(n));
    assert(c =~= prefix + c.skip(n));
    let too_many = q.options.len() < MIN_OPTIONS || q.options.len() > MAX_OPTIONS;
    let too_long = q.header is Some && q.header->0.len() > MAX_HEADER_LENGTH;
    let x = error_if(too_many, a);
    let y = error_if(recommended_count(q.options) > 1, b);
    let z = error_if(too_long, c);
    lemma_error_begins(too_many, prefix, a.skip(n), a);
    lemma_error_begins(recommended_count(q.options) > 1, prefix, b.skip(n), b);
    lemma_error_begins(too_long, prefix, c.skip(n), c);
    lemma_all_begin(x, y, prefix);
    lemma_all_begin(x + y, z, prefix);
    lemma_options_begin(prefix, q.options, 0);
    lemma_all_begin(x + y + z, options_errors(prefix, q.options, 0), prefix);
}

/// A number names the option that has it, counted from one, where there is
/// such an option; white space round it does not count, and nothing but a
/// number names one.
pub proof fn law_options_are_named_by_their_number(token: Seq<char>, n: nat, count: nat)
    requires
        n <= usize::MAX,
    ensures
        named_option(text::decimal(n), count) == if 1 <= n <= count {
            Some(n - 1)
        } else {
            None::<int>
        },
        named_option(token, count) == named_option(text::trim(token), count),
        named_option(token, count) matches Some(i) ==> 0 <= i < count && text::parse_number(
            text::trim(token),
            usize::MAX as nat,
        ) == Some((i + 1) as nat),
{
    text::law_decimal_is_read_back(n, usize::MAX as nat);
    lemma_decimal_is_trimmed(n);
    text::lemma_trim(token);
    let core = text::trim(token);
    let none = Seq::<char>::empty();
    assert(core =~= none + core + none);
    text::law_trimming_finds_the_core(none, core, none);
}

proof fn lemma_decimal_is_trimmed(n: nat)
    ensures
        text::trim(text::decimal(n)) == text::decimal(n),
{
    text::law_decimal_is_read_back(n, n);
    text::law_numbers_are_read_from_digits(text::decimal(n), n);
    let s = text::decimal(n);
    let none = Seq::<char>::empty();
    assert(s =~= none + s + none);
    text::law_trimming_finds_the_core(none, s, none);
}

proof fn lemma_all_named(tokens: Seq<Seq<char>>, count: nat, k: int)
    requires
        0 <= k <= tokens.len(),
    ensures
        named_options(tokens, count, k).len() <= tokens.len() - k,
        named_options(tokens, count, k).len() == tokens.len() - k <==> forall|i: int|
            k <= i < tokens.len() ==> named_option(#[trigger] tokens[i], count) is Some,
        named_options(tokens, count, k).len() == tokens.len() - k ==> forall|i: int|
            k <= i < tokens.len() ==> named_option(#[trigger] tokens[i], count) == Some(
                named_options(tokens, count, k)[i - k],
            ),
    decreases tokens.len() - k,
{
    if k < tokens.len() {
        lemma_all_named(tokens, count, k + 1);
        let all = named_options(tokens, count, k);
        let rest = named_options(tokens, count, k + 1);
        if let Some(first) = named_option(tokens[k], count) {
            assert(all == seq![first] + rest);
            if rest.len() == tokens.len() - k - 1 {
                assert forall|i: int| k <= i < tokens.len() implies named_option(
                    #[trigger] tokens[i],
                    count,
                ) == Some(all[i - k]) by {
                    if i > k {
                        assert(all[i - k] == rest[i - k - 1]);
                    }
                }
            }
        } else {
            assert(named_option(tokens[k], count) is None);
        }
    }
}

/// What a line answers. It is kept word for word as free text unless it names
/// options: a number names one, for a question with several answers numbers
/// between commas name several, in the order of the line and all of them. The
/// answer is to the question that was asked, bears the labels of the options,
/// and has no notes.
pub proof fn law_lines_answer_by_number_or_in_words(
    a: AskUserQuestionAnswer,
    q: QuestionView,
    index: usize,
    line: Seq<char>,
    j: int,
)
    requires
        is_answer(a, q, index, line),
    ensures
        index_of(a) == index,
        notes_of(a) is None,
        a matches AskUserQuestionAnswer::Custom { text: words, .. } ==> words@ == line
            && named_option(line, q.options.len()) is None,
        a matches AskUserQuestionAnswer::Option { index: i, label, .. } ==> named_option(
            line,
            q.options.len(),
        ) == Some(i as int) && i < q.options.len() && label@ == q.options[i as int].label,
        a matches AskUserQuestionAnswer::Multi { selected, .. } ==> {
            let tokens = text::split(line, ',');
            &&& q.multi_select == Some(true)
            &&& selected@.len() == tokens.len() && tokens.len() > 1
            &&& 0 <= j < tokens.len() ==> named_option(tokens[j], q.options.len()) == Some(
                selected@[j].index as int,
            ) && selected@[j].index < q.options.len() && selected@[j].label@
                == q.options[selected@[j].index as int].label
        },
        named_option(line, q.options.len()) is Some && !line.contains(',') ==> a is Option,
        q.multi_select != Some(true) ==> !(a is Multi),
        q.multi_select == Some(true) && text::split(line, ',').len() > 1 && (forall|i: int|
            0 <= i < text::split(line, ',').len() ==> named_option(
                #[trigger] text::split(line, ',')[i],
                q.options.len(),
            ) is Some) ==> a is Multi,
{
    let tokens = text::split(line, ',');
    let count = q.options.len();
    lemma_all_named(tokens, count, 0);
    lemma_named_options(tokens, count, 0);
    if !line.contains(',') {
        assert forall|i: int| 0 <= i < line.len() implies line[i] != ',' by {
            assert(line.contains(line[i]));
        }
        text::lemma_first_char_is(line, ',', line.len() as int);
        assert(tokens =~= seq![line]);
    }
    if let AskUserQuestionAnswer::Multi { selected, .. } = a {
        if 0 <= j < tokens.len() {
            let several = named_options(tokens, count, 0);
            assert(named_option(tokens[j], count) == Some(several[j]));
            assert(selected@[j].index == several[j]);
        }
    }
}

/// Only `cancel` and `quit` end a questionnaire, in capitals or small letters.
pub proof fn law_two_words_cancel(line: Seq<char>)
    ensures
        is_cancel("cancel"@) && is_cancel("quit"@),
        is_cancel(text::lowered(line)) == is_cancel(line),
        is_cancel(line) ==> text::lowered(line) == "cancel"@ || text::lowered(line) == "quit"@,
{
    reveal_strlit("cancel");
    reveal_strlit("quit");
    assert(text::lowered("cancel"@) =~= "cancel"@);
    assert(text::lowered("quit"@) =~= "quit"@);
    text::law_lower_case_changes_capitals_only(line);
}

/// The answers go up to the first line that ends the questionnaire, and to the
/// end of the questions or of the lines where none does.
pub proof fn law_answers_go_up_to_the_first_cancel(lines: Seq<Seq<char>>, questions: nat)
    ensures
        ({
            let n = answered_count(lines, questions, 0);
            &&& 0 <= n <= questions
            &&& n <= lines.len()
            &&& forall|i: int| 0 <= i < n ==> !is_cancel(text::trim(#[trigger] lines[i]))
            &&& n < questions && n < lines.len() ==> is_cancel(text::trim(lines[n]))
        }),
{
    lemma_answered(lines, questions, 0);
}

proof fn lemma_answered(lines: Seq<Seq<char>>, questions: nat, k: int)
    requires
        0 <= k <= questions,
        k <= lines.len(),
    ensures
        ({
            let n = answered_count(lines, questions, k);
            &&& k <= n <= questions
            &&& n <= lines.len()
            &&& forall|i: int| k <= i < n ==> !is_cancel(text::trim(#[trigger] lines[i]))
            &&& n < questions && n < lines.len() ==> is_cancel(text::trim(lines[n]))
        }),
    decreases questions - k,
{
    if k < questions && k < lines.len() && !is_cancel(text::trim(lines[k])) {
        lemma_answered(lines, questions, k + 1);
    }
}

/// A prompt shows the header and the text of the question, then each option on
/// a line of its own behind its number, and at last the free answer, which has
/// the number behind that of the last option.
pub proof fn law_prompts_show_every_option(q: QuestionView, index: int, i: int)
    requires
        0 <= i < q.options.len(),
    ensures
        text::starts_with(prompt(q, index), "\n["@ + header_of(q, index) + "] "@ + q.question + "\n"@),
        text::contains(
            prompt(q, index),
            "  "@ + text::decimal((i + 1) as nat) + ". "@ + q.options[i].label,
        ),
        q.options[i].description matches Some(description) ==> text::contains(
            prompt(q, index),
            q.options[i].label + " — "@ + description + "\n"@,
        ),
        text::contains(
            prompt(q, index),
            "  "@ + text::decimal((q.options.len() + 1) as nat) + ". "@ + "Type something."@,
        ),
{
    let head = "\n["@ + header_of(q, index) + "] "@ + q.question + "\n"@;
    let free = "  "@ + text::decimal(q.options.len() + 1) + ". "@ + FREE_TEXT_LABEL@;
    let tail = "\n"@ + answer_hint(q) + " [1-"@ + text::decimal(q.options.len() + 1)
        + ", or 'cancel']: "@;
    let all = option_lines(q.options, 0);
    let whole = prompt(q, index);
    assert(whole =~= head + (all + free + tail));
    text::law_stripping_undoes_putting(all + free + tail, head);
    assert(head + (all + free + tail) =~= (head + all) + free + tail);
    text::law_searching_finds_the_first_place(head + all, free, tail);
    assert(head + (all + free + tail) =~= head + all + (free + tail));
    lemma_options_are_shown(q.options, i);
    text::law_parts_are_held(
        head,
        all,
        free + tail,
        "  "@ + text::decimal((i + 1) as nat) + ". "@ + q.options[i].label,
    );
    if let Some(description) = q.options[i].description {
        text::law_parts_are_held(
            head,
            all,
            free + tail,
            q.options[i].label + " — "@ + description + "\n"@,
        );
    }
}

proof fn lemma_options_are_shown(options: Seq<OptionView>, i: int)
    requires
        0 <= i < options.len(),
    ensures
        text::contains(
            option_lines(options, 0),
            "  "@ + text::decimal((i + 1) as nat) + ". "@ + options[i].label,
        ),
        options[i].description matches Some(description) ==> text::contains(
            option_lines(options, 0),
            options[i].label + " — "@ + description + "\n"@,
        ),
{
    let o = options[i];
    let (before, behind) = lemma_option_lines(options, 0, i);
    let line = option_line(o, (i + 1) as nat);
    let number = "  "@ + text::decimal((i + 1) as nat) + ". "@;
    let none = Seq::<char>::empty();
    let told = match o.description {
        Some(description) => " — "@ + description,
        None => none,
    };
    assert(line =~= none + (number + o.label) + (told + "\n"@));
    text::law_searching_finds_the_first_place(none, number + o.label, told + "\n"@);
    text::law_parts_are_held(before, line, behind, number + o.label);
    if let Some(description) = o.description {
        let rest = o.label + " — "@ + description + "\n"@;
        assert(line =~= number + rest + none);
        text::law_searching_finds_the_first_place(number, rest, none);
        text::law_parts_are_held(before, line, behind, rest);
    }
}

proof fn lemma_option_lines(options: Seq<OptionView>, k: int, i: int) -> (parts: (
    Seq<char>,
    Seq<char>,
))
    requires
        0 <= k <= i < options.len(),
    ensures
        option_lines(options, k) == parts.0 + option_line(options[i], (i + 1) as nat) + parts.1,
    decreases i - k,
{
    if k == i {
        let rest = option_lines(options, k + 1);
        assert(option_lines(options, k) =~= Seq::<char>::empty() + option_line(
            options[i],
            (i + 1) as nat,
        ) + rest);
        (Seq::empty(), rest)
    } else {
        let (before, behind) = lemma_option_lines(options, k + 1, i);
        let line = option_line(options[k], (k + 1) as nat);
        assert(option_lines(options, k) =~= (line + before) + option_line(
            options[i],
            (i + 1) as nat,
        ) + behind);
        (line + before, behind)
    }
}

/// The line told of an answer begins with the header of the question that it
/// answers, and holds what was selected or written, word for word; notes stand
/// in parentheses at its end.
pub proof fn law_answers_are_told_in_full(questions: Seq<QuestionView>, a: AskUserQuestionAnswer)
    ensures
        index_of(a) < questions.len() ==> text::starts_with(
            answer_line(questions, a),
            header_of(questions[index_of(a) as int], index_of(a) as int),
        ),
        index_of(a) >= questions.len() ==> text::starts_with(
            answer_line(questions, a),
            "Q"@ + text::decimal((index_of(a) + 1) as nat),
        ),
        a matches AskUserQuestionAnswer::Custom { text: words, .. } ==> text::contains(
            answer_line(questions, a),
            ": user wrote: "@ + words@,
        ),
        a matches AskUserQuestionAnswer::Option { index, label, .. } ==> text::contains(
            answer_line(questions, a),
            ": user selected: "@ + text::decimal((index + 1) as nat) + ". "@ + label@,
        ),
        a matches AskUserQuestionAnswer::Multi { selected, .. } ==> text::contains(
            answer_line(questions, a),
            ": user selected: "@ + text::join(labels(selected@), ", "@),
        ),
        notes_of(a) matches Some(notes) ==> text::ends_with(
            answer_line(questions, a),
            " ("@ + notes + ")"@,
        ),
{
    let i = index_of(a) as int;
    let header = if i < questions.len() {
        header_of(questions[i], i)
    } else {
        default_header(i)
    };
    let line = answer_line(questions, a);
    assert(line =~= header + (answer_body(a) + notes_text(a)));
    text::law_stripping_undoes_putting(answer_body(a) + notes_text(a), header);
    text::law_searching_finds_the_first_place(header, answer_body(a), notes_text(a));
    text::law_stripping_undoes_putting(header + answer_body(a), notes_text(a));
}

/// Every answer is told on a line of its own, in order.
pub proof fn law_every_answer_has_its_line(
    questions: Seq<QuestionView>,
    answers: Seq<AskUserQuestionAnswer>,
    answer: AskUserQuestionAnswer,
)
    ensures
        answer_lines(questions, answers.push(answer)) == answer_lines(questions, answers).push(
            answer_line(questions, answer),
        ),
        answer_lines(questions, Seq::empty()).len() == 0,
{
    assert(answer_lines(questions, answers.push(answer)) =~= answer_lines(questions, answers).push(
        answer_line(questions, answer),
    ));
}

/// An answer of any kind tells the question that it is for and the notes that
/// came with it.
pub proof fn law_answers_tell_their_question_and_notes(
    question_index: usize,
    notes: Option<String>,
    index: usize,
    label: String,
    selected: Vec<AskUserQuestionSelection>,
    text: String,
)
    ensures
        index_of(AskUserQuestionAnswer::Option { question_index, index, label, notes })
            == question_index,
        index_of(AskUserQuestionAnswer::Multi { question_index, selected, notes })
            == question_index,
        index_of(AskUserQuestionAnswer::Custom { question_index, text, notes }) == question_index,
        notes matches Some(s) ==> notes_of(
            AskUserQuestionAnswer::Option { question_index, index, label, notes },
        ) == Some(s@) && notes_of(AskUserQuestionAnswer::Multi { question_index, selected, notes })
            == Some(s@) && notes_of(AskUserQuestionAnswer::Custom { question_index, text, notes })
            == Some(s@),
        notes is None ==> notes_of(
            AskUserQuestionAnswer::Option { question_index, index, label, notes },
        ) is None && notes_of(AskUserQuestionAnswer::Multi { question_index, selected, notes }) is None
            && notes_of(AskUserQuestionAnswer::Custom { question_index, text, notes }) is None,
{
}

} // verus!
