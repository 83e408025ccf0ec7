//! Server-sent events: an incremental decoder.

use crate::sort;
use crate::text;
use crate::text::{
    begins_with, cat3, chars_of, find_char_from, lossy_text, owned, str_eq, stripped_prefix,
    trimmed_end_char,
};
use vstd::prelude::*;

verus! {

/// One decoded event.
#[derive(Debug)]
pub struct SseEvent {
    pub event: String,
    pub data: String,
}

/// What an [`SseEvent`] stands for.
#[verifier::ext_equal]
pub struct EventView {
    pub event: Seq<char>,
    pub data: Seq<char>,
}

impl View for SseEvent {
    type V = EventView;

    open spec fn view(&self) -> EventView {
        EventView { event: self.event@, data: self.data@ }
    }
}

/// What a list of [`SseEvent`] stands for.
pub open spec fn event_views(events: Seq<SseEvent>) -> Seq<EventView> {
    Seq::new(events.len(), |i: int| events[i]@)
}

/// What an optional event stands for.
pub open spec fn opt_event(e: Option<SseEvent>) -> Option<EventView> {
    match e {
        Some(e) => Some(e@),
        None => None,
    }
}

/// An incremental decoder: bytes go in as they come, whole events come out.
#[derive(Debug)]
pub struct SseDecoder {
    /// The text behind the last line feed.
    buf: String,
    /// The event whose end has not been seen.
    pending: Option<OpenEvent>,
}

/// An event whose end has not been seen.
#[derive(Debug)]
struct OpenEvent {
    event: String,
    /// The data lines so far, where there are any.
    data: Option<String>,
}

/// What an event whose end has not been seen stands for.
#[verifier::ext_equal]
pub struct OpenView {
    pub event: Seq<char>,
    pub data: Option<Seq<char>>,
}

impl View for OpenEvent {
    type V = OpenView;

    closed spec fn view(&self) -> OpenView {
        OpenView { event: self.event@, data: text::opt_text(self.data) }
    }
}

/// What an optional event in progress stands for.
spec fn opt_open(e: Option<OpenEvent>) -> Option<OpenView> {
    match e {
        Some(e) => Some(e@),
        None => None,
    }
}

/// What an [`SseDecoder`] stands for.
#[verifier::ext_equal]
pub struct DecoderView {
    pub buf: Seq<char>,
    pub pending: Option<OpenView>,
}

impl View for SseDecoder {
    type V = DecoderView;

    closed spec fn view(&self) -> DecoderView {
        DecoderView { buf: self.buf@, pending: opt_open(self.pending) }
    }
}

/// The decoder before any byte.
pub open spec fn fresh() -> DecoderView {
    DecoderView { buf: Seq::empty(), pending: None }
}

// ---------------------------------------------------------------------------
// What a line does
// ---------------------------------------------------------------------------

/// A field line in two: its name and its value. One space behind the colon
/// does not count; a line without a colon is a name.
pub open spec fn field(line: Seq<char>) -> (Seq<char>, Seq<char>) {
    let i = text::first_char(line, ':');
    if i < line.len() {
        let value = line.skip(i + 1);
        (
            line.take(i),
            match text::strip_prefix(value, " "@) {
                Some(rest) => rest,
                None => value,
            },
        )
    } else {
        (line, ""@)
    }
}

/// The event with one more field: data lines are joined with a line feed, and
/// unknown fields change nothing.
pub open spec fn with_field(e: OpenView, name: Seq<char>, value: Seq<char>) -> OpenView {
    if name == "data"@ {
        OpenView {
            data: match e.data {
                None => Some(value),
                Some(data) => Some(data + "\n"@ + value),
            },
            ..e
        }
    } else if name == "event"@ {
        OpenView { event: value, ..e }
    } else {
        e
    }
}

/// An event that has ended; one without a data line has no data.
pub open spec fn ended_event(e: OpenView) -> EventView {
    EventView {
        event: e.event,
        data: match e.data {
            Some(data) => data,
            None => Seq::empty(),
        },
    }
}

/// What one line does to the event in progress: a blank line ends it, a
/// comment does nothing, anything else is a field.
pub open spec fn line_step(pending: Option<OpenView>, raw: Seq<char>) -> (
    Option<OpenView>,
    Option<EventView>,
) {
    let line = text::trim_end_char(raw, '\r');
    if line.len() == 0 {
        (
            None,
            match pending {
                Some(e) => Some(ended_event(e)),
                None => None,
            },
        )
    } else if text::starts_with(line, ":"@) {
        (pending, None)
    } else {
        let open = match pending {
            Some(e) => e,
            None => OpenView { event: Seq::empty(), data: None },
        };
        let (name, value) = field(line);
        (Some(with_field(open, name, value)), None)
    }
}

/// `done` with an event behind it, where there is one.
pub open spec fn push_event(done: Seq<EventView>, e: Option<EventView>) -> Seq<EventView> {
    match e {
        Some(e) => done.push(e),
        None => done,
    }
}

/// The decoder after the whole lines of its buffer, and `done` with the
/// events that they ended.
pub open spec fn drain(d: DecoderView, done: Seq<EventView>) -> (DecoderView, Seq<EventView>)
    decreases d.buf.len(),
    via drain_decreases
{
    let i = text::first_char(d.buf, '\n');
    if i < d.buf.len() {
        let (pending, ended) = line_step(d.pending, d.buf.take(i));
        drain(DecoderView { buf: d.buf.skip(i + 1), pending }, push_event(done, ended))
    } else {
        (d, done)
    }
}

#[via_fn]
proof fn drain_decreases(d: DecoderView, done: Seq<EventView>) {
    text::lemma_first_char(d.buf, '\n');
}

/// What a piece of text does: the decoder afterwards and the events it ends.
pub open spec fn fed(d: DecoderView, piece: Seq<char>) -> (DecoderView, Seq<EventView>) {
    drain(DecoderView { buf: d.buf + piece, ..d }, Seq::empty())
}

// ---------------------------------------------------------------------------
// The decoder
// ---------------------------------------------------------------------------

/// A field line in two.
fn split_field(line: &str) -> (r: (&str, &str))
    ensures
        (r.0@, r.1@) == field(line@),
{
    let chars = chars_of(line);
    let i: usize = find_char_from(&chars, ':', 0);
    proof {
        text::lemma_first_char(line@, ':');
        assert(line@.skip(0) =~= line@);
    }
    if i < chars.len() {
        let name = line.substring_char(0, i);
        let value = line.substring_char(i + 1, chars.len());
        proof {
            assert(name@ =~= line@.take(i as int));
            assert(value@ =~= line@.skip(i + 1));
        }
        match stripped_prefix(value, " ") {
            Some(rest) => (name, rest),
            None => (name, value),
        }
    } else {
        (line, "")
    }
}

impl OpenEvent {
    /// Takes one field.
    fn take_field(&mut self, name: &str, value: &str)
        ensures
            final(self)@ == with_field(old(self)@, name@, value@),
    {
        if str_eq(name, "data") {
            self.data = match &self.data {
                None => Some(owned(value)),
                Some(data) => Some(cat3(data.as_str(), "\n", value)),
            };
        } else if str_eq(name, "event") {
            self.event = owned(value);
        }
    }

    /// The event, at its end.
    fn end(self) -> (r: SseEvent)
        ensures
            r@ == ended_event(self@),
    {
        let data = match self.data {
            Some(data) => data,
            None => String::new(),
        };
        let r = SseEvent { event: self.event, data };
        assert(r@ =~= ended_event(self@));
        r
    }
}

impl Default for SseDecoder {
    /// A decoder before any byte.
    fn default() -> (r: Self)
        ensures
            r@ == fresh(),
    {
        let r = SseDecoder { buf: String::new(), pending: None };
        assert(r@ =~= fresh());
        r
    }
}

impl SseDecoder {
    /// Takes one line and gives the event that it ends.
    fn take_line(&mut self, raw: &str) -> (ended: Option<SseEvent>)
        ensures
            final(self)@.buf == old(self)@.buf,
            (final(self)@.pending, opt_event(ended)) == line_step(old(self)@.pending, raw@),
    {
        let line = trimmed_end_char(raw, '\r');
        if line.unicode_len() == 0 {
            return match self.pending.take() {
                Some(open) => Some(open.end()),
                None => None,
            };
        }
        if begins_with(line, ":") {
            return None;
        }
        let (name, value) = split_field(line);
        let mut open = match self.pending.take() {
            Some(e) => e,
            None => {
                let e = OpenEvent { event: String::new(), data: None };
                assert(e@ =~= OpenView { event: Seq::empty(), data: None });
                e
            },
        };
        open.take_field(name, value);
        self.pending = Some(open);
        None
    }

    /// Feeds a piece of text and gives the events that it ends.
    pub fn feed_text(&mut self, piece: &str) -> (events: Vec<SseEvent>)
        ensures
            (final(self)@, event_views(events@)) == fed(old(self)@, piece@),
    {
        let ghost start = DecoderView { buf: self@.buf + piece@, ..self@ };
        let ghost goal = fed(self@, piece@);
        self.buf.append(piece);
        let text = owned(self.buf.as_str());
        let chars = chars_of(text.as_str());
        let mut events: Vec<SseEvent> = Vec::new();
        let mut from: usize = 0;
        proof {
            assert(start.buf.skip(0) =~= start.buf);
            assert(event_views(events@) =~= Seq::<EventView>::empty());
        }
        loop
            invariant
                chars@ == text@,
                from <= chars@.len(),
                goal == fed(old(self)@, piece@),
                goal == drain(
                    DecoderView { buf: text@.skip(from as int), pending: self@.pending },
                    event_views(events@),
                ),
            decreases chars@.len() - from,
        {
            let i: usize = find_char_from(&chars, '\n', from);
            let ghost rest = text@.skip(from as int);
            proof {
                text::lemma_first_char(rest, '\n');
            }
            if i >= chars.len() {
                self.buf = owned(text.as_str().substring_char(from, chars.len()));
                assert(self@ =~= DecoderView { buf: rest, pending: self@.pending });
                return events;
            }
            let line = text.as_str().substring_char(from, i);
            proof {
                assert(line@ =~= rest.take(i - from));
                assert(rest.skip(i - from + 1) =~= text@.skip(i + 1));
            }
            let ghost before = events@;
            match self.take_line(line) {
                Some(e) => {
                    events.push(e);
                    assert(event_views(events@) =~= event_views(before).push(e@));
                },
                None => {},
            }
            from = i + 1;
        }
    }

    /// Feeds raw bytes and gives the events that they end.
    pub fn feed(&mut self, bytes: &[u8]) -> (events: Vec<SseEvent>)
        ensures
            (final(self)@, event_views(events@)) == fed(old(self)@, text::lossy(bytes@)),
            vstd::utf8::valid_utf8(bytes@) ==> (final(self)@, event_views(events@)) == fed(
                old(self)@,
                vstd::utf8::decode_utf8(bytes@),
            ),
    {
        let piece = lossy_text(bytes);
        self.feed_text(piece.as_str())
    }
}

// ---------------------------------------------------------------------------
// Laws
// ---------------------------------------------------------------------------

proof fn lemma_drain_behind(d: DecoderView, done: Seq<EventView>, piece: Seq<char>)
    ensures
        drain(DecoderView { buf: d.buf + piece, ..d }, done) == ({
            let (mid, so_far) = drain(d, done);
            drain(DecoderView { buf: mid.buf + piece, ..mid }, so_far)
        }),
    decreases d.buf.len(),
{
    text::lemma_first_char(d.buf, '\n');
    let i = text::first_char(d.buf, '\n');
    if i < d.buf.len() {
        let whole = d.buf + piece;
        assert forall|j: int| 0 <= j < i implies whole[j] != '\n' by {
            assert(whole[j] == d.buf[j]);
        }
        assert(whole[i] == '\n');
        text::lemma_first_char_is(whole, '\n', i);
        assert(whole.take(i) =~= d.buf.take(i));
        assert(whole.skip(i + 1) =~= d.buf.skip(i + 1) + piece);
        let (pending, ended) = line_step(d.pending, d.buf.take(i));
        lemma_drain_behind(
            DecoderView { buf: d.buf.skip(i + 1), pending },
            push_event(done, ended),
            piece,
        );
    }
}

proof fn lemma_drain_done(d: DecoderView, done: Seq<EventView>)
    ensures
        drain(d, done) == (drain(d, Seq::empty()).0, done + drain(d, Seq::empty()).1),
    decreases d.buf.len(),
{
    text::lemma_first_char(d.buf, '\n');
    let i = text::first_char(d.buf, '\n');
    if i < d.buf.len() {
        let (pending, ended) = line_step(d.pending, d.buf.take(i));
        let next = DecoderView { buf: d.buf.skip(i + 1), pending };
        lemma_drain_done(next, push_event(done, ended));
        lemma_drain_done(next, push_event(Seq::empty(), ended));
        assert(push_event(done, ended) + drain(next, Seq::empty()).1 =~= done + (push_event(
            Seq::empty(),
            ended,
        ) + drain(next, Seq::empty()).1));
    } else {
        assert(done + Seq::<EventView>::empty() =~= done);
    }
}

/// Where a text is cut does not matter: two pieces end the events, and leave
/// the decoder, that their concatenation does.
pub proof fn law_cuts_do_not_matter(d: DecoderView, a: Seq<char>, b: Seq<char>)
    ensures
        fed(d, a + b).0 == fed(fed(d, a).0, b).0,
        fed(d, a + b).1 == fed(d, a).1 + fed(fed(d, a).0, b).1,
{
    let first = DecoderView { buf: d.buf + a, ..d };
    assert(d.buf + (a + b) =~= first.buf + b);
    lemma_drain_behind(first, Seq::empty(), b);
    let (mid, so_far) = drain(first, Seq::empty());
    lemma_drain_done(DecoderView { buf: mid.buf + b, ..mid }, so_far);
}

/// Where bytes are cut does not matter as long as no character is cut: bytes
/// fed in two pieces, each of them whole characters, do what they do in one.
pub proof fn law_byte_cuts_do_not_matter(d: DecoderView, a: Seq<u8>, b: Seq<u8>)
    requires
        vstd::utf8::valid_utf8(a),
        vstd::utf8::valid_utf8(b),
    ensures
        vstd::utf8::valid_utf8(a + b),
        fed(d, vstd::utf8::decode_utf8(a + b)).0 == fed(
            fed(d, vstd::utf8::decode_utf8(a)).0,
            vstd::utf8::decode_utf8(b),
        ).0,
        fed(d, vstd::utf8::decode_utf8(a + b)).1 == fed(d, vstd::utf8::decode_utf8(a)).1 + fed(
            fed(d, vstd::utf8::decode_utf8(a)).0,
            vstd::utf8::decode_utf8(b),
        ).1,
{
    vstd::utf8::valid_utf8_concat(a, b);
    lemma_decode_concat(a, b);
    law_cuts_do_not_matter(d, vstd::utf8::decode_utf8(a), vstd::utf8::decode_utf8(b));
}

proof fn lemma_decode_concat(a: Seq<u8>, b: Seq<u8>)
    requires
        vstd::utf8::valid_utf8(a),
        vstd::utf8::valid_utf8(b),
    ensures
        vstd::utf8::decode_utf8(a + b) == vstd::utf8::decode_utf8(a) + vstd::utf8::decode_utf8(b),
    decreases a.len(),
{
    vstd::utf8::valid_utf8_concat(a, b);
    if a.len() == 0 {
        assert(a + b =~= b);
        assert(vstd::utf8::decode_utf8(a) + vstd::utf8::decode_utf8(b) =~= vstd::utf8::decode_utf8(
            b,
        ));
    } else {
        let rest = vstd::utf8::pop_first_scalar(a);
        assert(vstd::utf8::pop_first_scalar(a + b) =~= rest + b);
        lemma_decode_concat(rest, b);
        assert(vstd::utf8::decode_utf8(a + b) =~= vstd::utf8::decode_utf8(a)
            + vstd::utf8::decode_utf8(b));
    }
}

/// Between two pieces the decoder holds no whole line.
pub proof fn law_no_whole_line_is_held_back(d: DecoderView, piece: Seq<char>)
    ensures
        !fed(d, piece).0.buf.contains('\n'),
{
    lemma_drained(DecoderView { buf: d.buf + piece, ..d }, Seq::empty());
}

proof fn lemma_drained(d: DecoderView, done: Seq<EventView>)
    ensures
        !drain(d, done).0.buf.contains('\n'),
    decreases d.buf.len(),
{
    text::lemma_first_char(d.buf, '\n');
    let i = text::first_char(d.buf, '\n');
    if i < d.buf.len() {
        let (pending, ended) = line_step(d.pending, d.buf.take(i));
        lemma_drained(
            DecoderView { buf: d.buf.skip(i + 1), pending },
            push_event(done, ended),
        );
    }
}

/// The event after data lines with those values.
pub open spec fn with_data_lines(e: OpenView, values: Seq<Seq<char>>) -> OpenView
    decreases values.len(),
{
    if values.len() == 0 {
        e
    } else {
        with_field(with_data_lines(e, values.drop_last()), "data"@, values.last())
    }
}

/// The data lines of an event are joined with line feeds, empty ones among
/// them.
pub proof fn law_data_lines_are_joined(e: OpenView, values: Seq<Seq<char>>)
    requires
        e.data is None,
        values.len() > 0,
    ensures
        ended_event(with_data_lines(e, values)) == (EventView {
            event: e.event,
            data: text::join(values, "\n"@),
        }),
{
    lemma_data_lines(e, values);
}

proof fn lemma_data_lines(e: OpenView, values: Seq<Seq<char>>)
    requires
        e.data is None,
    ensures
        with_data_lines(e, values) == (OpenView {
            event: e.event,
            data: if values.len() == 0 {
                None
            } else {
                Some(text::join(values, "\n"@))
            },
        }),
    decreases values.len(),
{
    if values.len() > 0 {
        lemma_data_lines(e, values.drop_last());
    }
}

/// An event in progress after the fields of `fields`, one after the other.
pub open spec fn with_fields(e: OpenView, fields: Seq<(Seq<char>, Seq<char>)>) -> OpenView
    decreases fields.len(),
{
    if fields.len() == 0 {
        e
    } else {
        with_field(
            with_fields(e, fields.drop_last()),
            fields.last().0,
            fields.last().1,
        )
    }
}

/// Whether a field has a name.
pub open spec fn has_name(name: Seq<char>) -> spec_fn((Seq<char>, Seq<char>)) -> bool {
    |f: (Seq<char>, Seq<char>)| f.0 == name
}

/// The values of the fields of one name, in order.
pub open spec fn values_of(fields: Seq<(Seq<char>, Seq<char>)>, name: Seq<char>) -> Seq<Seq<char>> {
    let kept = fields.filter(has_name(name));
    Seq::new(kept.len(), |i: int| kept[i].1)
}

proof fn lemma_values_of(
    fields: Seq<(Seq<char>, Seq<char>)>,
    item: (Seq<char>, Seq<char>),
    name: Seq<char>,
)
    ensures
        values_of(fields.push(item), name) == if item.0 == name {
            values_of(fields, name).push(item.1)
        } else {
            values_of(fields, name)
        },
{
    sort::lemma_filter_last(fields, item, has_name(name));
    assert(values_of(fields.push(item), name) =~= if item.0 == name {
        values_of(fields, name).push(item.1)
    } else {
        values_of(fields, name)
    });
}

/// A field whose name is neither `data` nor `event` leaves the event in
/// progress as it was; a name leaves the data alone, and data the name.
pub proof fn law_other_fields_change_nothing(e: OpenView, name: Seq<char>, value: Seq<char>)
    ensures
        name != "data"@ && name != "event"@ ==> with_field(e, name, value) == e,
        name == "event"@ ==> with_field(e, name, value).event == value && with_field(
            e,
            name,
            value,
        ).data == e.data,
        name == "data"@ ==> with_field(e, name, value).event == e.event && with_field(
            e,
            name,
            value,
        ).data is Some,
{
    lemma_names_differ();
}

proof fn lemma_names_differ()
    ensures
        "data"@ != "event"@,
{
    reveal_strlit("data");
    reveal_strlit("event");
    assert("data"@.len() != "event"@.len());
}

/// The name of an event is the value of its last `event` field, or as it was
/// where there is none; its data are the values of all `data` fields, joined
/// by line feeds. No other field counts.
pub proof fn law_events_are_made_of_their_fields(fields: Seq<(Seq<char>, Seq<char>)>)
    ensures
        ({
            let e = ended_event(with_fields(OpenView { event: Seq::empty(), data: None }, fields));
            let names = values_of(fields, "event"@);
            &&& e.event == if names.len() == 0 {
                Seq::empty()
            } else {
                names.last()
            }
            &&& e.data == text::join(values_of(fields, "data"@), "\n"@)
        }),
{
    lemma_fields(fields);
}

proof fn lemma_fields(fields: Seq<(Seq<char>, Seq<char>)>)
    ensures
        ({
            let e = with_fields(OpenView { event: Seq::empty(), data: None }, fields);
            let names = values_of(fields, "event"@);
            let data = values_of(fields, "data"@);
            &&& e.event == if names.len() == 0 {
                Seq::empty()
            } else {
                names.last()
            }
            &&& data.len() == 0 ==> e.data is None
            &&& data.len() > 0 ==> e.data == Some(text::join(data, "\n"@))
        }),
    decreases fields.len(),
{
    lemma_names_differ();
    if fields.len() > 0 {
        let front = fields.drop_last();
        lemma_fields(front);
        assert(front.push(fields.last()) =~= fields);
        lemma_values_of(front, fields.last(), "event"@);
        lemma_values_of(front, fields.last(), "data"@);
        let before = values_of(front, "data"@);
        if fields.last().0 == "data"@ {
            let data = before.push(fields.last().1);
            assert(data.drop_last() =~= before);
            if before.len() == 0 {
                assert(text::join(data, "\n"@) == data[0]);
            }
        }
    } else {
        sort::lemma_filter_empty(has_name("event"@));
        sort::lemma_filter_empty(has_name("data"@));
        assert(values_of(fields, "event"@).len() == 0);
        assert(values_of(fields, "data"@).len() == 0);
    }
}

/// A line is a field: its name stands before the first colon and its value
/// behind it, without one space in front. A line without a colon is a name.
pub proof fn law_fields_are_split_at_the_first_colon(name: Seq<char>, value: Seq<char>)
    requires
        !name.contains(':'),
    ensures
        field(name + ": "@ + value) == (name, value),
        field(name + ":"@ + value) == (
            name,
            if value.len() > 0 && value[0] == ' ' {
                value.drop_first()
            } else {
                value
            },
        ),
        field(name) == (name, Seq::<char>::empty()),
{
    reveal_strlit(": ");
    reveal_strlit(":");
    reveal_strlit(" ");
    reveal_strlit("");
    assert(" "@ =~= seq![' ']);
    assert forall|j: int| 0 <= j < name.len() implies name[j] != ':' by {
        assert(name.contains(name[j]));
    }
    let n = name.len() as int;
    text::lemma_first_char_is(name, ':', n);
    assert(""@ =~= Seq::<char>::empty());
    let spaced = name + ": "@ + value;
    text::lemma_first_char_is(spaced, ':', n);
    assert(spaced.take(n) =~= name);
    assert(spaced.skip(n + 1) =~= " "@ + value);
    text::law_stripping_undoes_putting(value, " "@);
    let bare = name + ":"@ + value;
    text::lemma_first_char_is(bare, ':', n);
    assert(bare.take(n) =~= name);
    assert(bare.skip(n + 1) =~= value);
    if value.len() > 0 && value[0] == ' ' {
        assert(value =~= " "@ + value.drop_first());
        text::law_stripping_undoes_putting(value.drop_first(), " "@);
    } else if text::starts_with(value, " "@) {
        assert(value.take(1)[0] == value[0]);
    }
}

/// A blank line ends the event in progress, and only a blank line does; a line
/// that begins with a colon is passed over, and any other counts as a field.
/// Carriage returns at the end of a line do not count.
pub proof fn law_lines_are_blank_comments_or_fields(pending: Option<OpenView>, line: Seq<char>)
    requires
        line.len() > 0 ==> line.last() != '\r',
    ensures
        line_step(pending, line.push('\r')) == line_step(pending, line),
        line.len() == 0 ==> line_step(pending, line).0 is None && (match pending {
            Some(e) => line_step(pending, line).1 == Some(ended_event(e)),
            None => line_step(pending, line).1 is None,
        }),
        line.len() > 0 ==> line_step(pending, line).1 is None,
        line.len() > 0 && line[0] == ':' ==> line_step(pending, line).0 == pending,
        line.len() > 0 && line[0] != ':' ==> line_step(pending, line).0 == Some(
            with_field(
                match pending {
                    Some(e) => e,
                    None => OpenView { event: Seq::empty(), data: None },
                },
                field(line).0,
                field(line).1,
            ),
        ),
{
    reveal_strlit(":");
    assert(":"@ =~= seq![':']);
    assert(line.push('\r').drop_last() =~= line);
    if line.len() > 0 && line[0] == ':' {
        assert(line.take(1) =~= ":"@);
    } else if text::starts_with(line, ":"@) {
        assert(line.take(1)[0] == ':');
    }
}

/// What a decoder does with a whole line in front of more text: the line is
/// taken by itself, and what it ends comes first.
pub proof fn law_lines_are_taken_one_by_one(
    pending: Option<OpenView>,
    line: Seq<char>,
    rest: Seq<char>,
)
    requires
        !line.contains('\n'),
    ensures
        ({
            let whole = fed(DecoderView { buf: Seq::empty(), pending }, line + seq!['\n'] + rest);
            let (after, ended) = line_step(pending, line);
            let more = fed(DecoderView { buf: Seq::empty(), pending: after }, rest);
            &&& whole.0 == more.0
            &&& whole.1 == (match ended {
                Some(e) => seq![e],
                None => Seq::empty(),
            }) + more.1
        }),
{
    let all = line + seq!['\n'] + rest;
    let n = line.len() as int;
    assert forall|j: int| 0 <= j < n implies all[j] != '\n' by {
        assert(line.contains(line[j]));
        assert(all[j] == line[j]);
    }
    text::lemma_first_char_is(all, '\n', n);
    assert(all.take(n) =~= line);
    assert(all.skip(n + 1) =~= rest);
    assert(Seq::<char>::empty() + all =~= all);
    assert(Seq::<char>::empty() + rest =~= rest);
    let (after, ended) = line_step(pending, line);
    let next = DecoderView { buf: rest, pending: after };
    lemma_drain_done(next, push_event(Seq::empty(), ended));
    assert(push_event(Seq::empty(), ended) =~= (match ended {
        Some(e) => seq![e],
        None => Seq::empty(),
    }));
}

/// An event written out, with a name, a field of any other name and data, is
/// read as it was written, and leaves nothing behind.
pub proof fn law_written_events_are_read(
    event: Seq<char>,
    other: Seq<char>,
    value: Seq<char>,
    data: Seq<char>,
)
    requires
        !event.contains('\n') && !event.contains('\r'),
        !other.contains('\n') && !other.contains('\r') && !other.contains(':'),
        other.len() > 0 && other != "data"@ && other != "event"@,
        !value.contains('\n') && !value.contains('\r'),
        !data.contains('\n') && !data.contains('\r'),
    ensures
        fed(
            fresh(),
            "event"@ + ": "@ + event + seq!['\n'] + (other + ": "@ + value + seq!['\n'] + ("data"@
                + ": "@ + data + seq!['\n'] + (Seq::<char>::empty() + seq!['\n'] + Seq::empty()))),
        ) == (fresh(), seq![EventView { event, data }]),
{
    reveal_strlit(": ");
    reveal_strlit("event");
    reveal_strlit("data");
    let first = "event"@ + ": "@ + event;
    let second = other + ": "@ + value;
    let third = "data"@ + ": "@ + data;
    lemma_field_line("event"@, event);
    lemma_field_line(other, value);
    lemma_field_line("data"@, data);
    lemma_names_differ();
    let none = Seq::<char>::empty();
    let blank = none + seq!['\n'] + none;
    let fourth = third + seq!['\n'] + blank;
    let behind = second + seq!['\n'] + fourth;
    law_lines_are_blank_comments_or_fields(None, first);
    law_lines_are_taken_one_by_one(None, first, behind);
    let a = OpenView { event, data: None };
    assert(line_step(None, first) == (Some(a), None::<EventView>));
    law_lines_are_blank_comments_or_fields(Some(a), second);
    law_lines_are_taken_one_by_one(Some(a), second, fourth);
    assert(line_step(Some(a), second) == (Some(a), None::<EventView>));
    law_lines_are_blank_comments_or_fields(Some(a), third);
    law_lines_are_taken_one_by_one(Some(a), third, blank);
    let b = OpenView { event, data: Some(data) };
    assert(line_step(Some(a), third) == (Some(b), None::<EventView>));
    law_lines_are_blank_comments_or_fields(Some(b), none);
    law_lines_are_taken_one_by_one(Some(b), none, none);
    assert(fed(fresh(), none) == (fresh(), Seq::<EventView>::empty())) by {
        assert(none + none =~= none);
    }
    let done = seq![EventView { event, data }];
    assert(done + Seq::<EventView>::empty() =~= done);
    assert(Seq::<EventView>::empty() + done =~= done);
}

proof fn lemma_field_line(name: Seq<char>, value: Seq<char>)
    requires
        name.len() > 0,
        !name.contains('\n') && !name.contains('\r') && !name.contains(':'),
        !value.contains('\n') && !value.contains('\r'),
    ensures
        ({
            let line = name + ": "@ + value;
            &&& line.len() > 0 && line[0] != ':' && line.last() != '\r' && !line.contains('\n')
            &&& field(line) == (name, value)
        }),
{
    reveal_strlit(": ");
    law_fields_are_split_at_the_first_colon(name, value);
    let line = name + ": "@ + value;
    assert(name.contains(name[0]));
    assert(line[0] == name[0]);
    if value.len() > 0 {
        assert(value.contains(value.last()));
    }
    assert forall|j: int| 0 <= j < line.len() implies line[j] != '\n' by {
        if j < name.len() {
            assert(name.contains(name[j]));
        } else if j >= name.len() + 2 {
            assert(value.contains(value[j - name.len() - 2]));
        }
    }
}

} // verus!
