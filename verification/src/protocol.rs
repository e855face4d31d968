//! The machine-readable event stream: one JSON object per line, numbered
//! by a sequence that starts at 1 and goes up by one per event, and the
//! structured failures reported through it. Writing the lines is the
//! caller's I/O; numbering and the content of failure events are decided
//! here.

use crate::text::{append_chars, chars_of, string_from_chars};
use vstd::prelude::*;

verus! {

/// The event stream's protocol version.
pub const VERSION: u32 = 1;

/// The numbering state of an event stream. A disabled stream numbers
/// nothing.
pub struct EventSink {
    enabled: bool,
    sequence: u64,
}

impl EventSink {
    pub closed spec fn is_enabled(&self) -> bool {
        self.enabled
    }

    /// The number of the last event, 0 before the first.
    pub closed spec fn last_sequence(&self) -> u64 {
        self.sequence
    }

    pub fn new(enabled: bool) -> (s: EventSink)
        ensures
            s.is_enabled() == enabled,
            s.last_sequence() == 0,
    {
        EventSink { enabled, sequence: 0 }
    }

    pub fn enabled(&self) -> (b: bool)
        ensures
            b == self.is_enabled(),
    {
        self.enabled
    }

    /// The number of the last event emitted, 0 before the first.
    pub fn sequence(&self) -> (n: u64)
        ensures
            n == self.last_sequence(),
    {
        self.sequence
    }

    /// Admits the next event and numbers it. An event is written only on
    /// an enabled stream and only when its fields form an object; it then
    /// gets one more than the last number. Any other event is not written
    /// and leaves the numbering as it was, so the written events are
    /// numbered 1, 2, 3, ... without a gap.
    pub fn accept(&mut self, fields_are_object: bool) -> (r: Option<u64>)
        requires
            old(self).last_sequence() < u64::MAX,
        ensures
            final(self).is_enabled() == old(self).is_enabled(),
            (old(self).is_enabled() && fields_are_object) ==> r == Some((old(self).last_sequence() + 1) as u64)
                && final(self).last_sequence() == old(self).last_sequence() + 1,
            !(old(self).is_enabled() && fields_are_object) ==> r is None && final(self).last_sequence()
                == old(self).last_sequence(),
            accept_step(*old(self), fields_are_object, r, *final(self)),
    {
        if !self.enabled || !fields_are_object {
            return None;
        }
        self.sequence = self.sequence + 1;
        Some(self.sequence)
    }
}

/// One call of [`EventSink::accept`]: from `before`, with fields that are
/// an object or not, giving `r` and leaving `after`.
pub open spec fn accept_step(before: EventSink, fields_are_object: bool, r: Option<u64>, after: EventSink) -> bool {
    &&& after.is_enabled() == before.is_enabled()
    &&& if before.is_enabled() && fields_are_object {
        r == Some((before.last_sequence() + 1) as u64) && after.last_sequence() == before.last_sequence() + 1
    } else {
        r is None && after.last_sequence() == before.last_sequence()
    }
}

/// The numbers given to the written events, in order.
pub open spec fn numbers_written(results: Seq<Option<u64>>) -> Seq<int>
    decreases results.len(),
{
    if results.len() == 0 {
        Seq::empty()
    } else {
        match results.last() {
            Some(n) => numbers_written(results.drop_last()).push(n as int),
            None => numbers_written(results.drop_last()),
        }
    }
}

/// Over a run of [`EventSink::accept`] calls on a new stream (each call
/// taking the stream the one before left), the events written are
/// numbered 1, 2, 3, ... in the order they were written, without a gap or
/// a repeat, and the stream's last number is how many were written.
pub proof fn lemma_written_events_are_numbered_contiguously(
    sinks: Seq<EventSink>,
    objects: Seq<bool>,
    results: Seq<Option<u64>>,
)
    requires
        sinks.len() == objects.len() + 1,
        results.len() == objects.len(),
        sinks[0].last_sequence() == 0,
        forall|j: int| 0 <= j < objects.len() ==> accept_step(#[trigger] sinks[j], objects[j], results[j], sinks[j + 1]),
    ensures
        numbers_written(results) == Seq::new(numbers_written(results).len(), |i: int| i + 1),
        sinks.last().last_sequence() == numbers_written(results).len(),
    decreases objects.len(),
{
    if objects.len() > 0 {
        let k = objects.len() - 1;
        lemma_written_events_are_numbered_contiguously(sinks.drop_last(), objects.drop_last(), results.drop_last());
        assert(accept_step(sinks[k], objects[k], results[k], sinks[k + 1]));
        assert(sinks.drop_last().last() == sinks[k]);
        let prev = numbers_written(results.drop_last());
        assert(results.last() == results[k]);
        if results[k] is Some {
            assert(numbers_written(results) =~= Seq::new(prev.len() + 1, |i: int| i + 1));
        }
    }
}

/// A value of an event field.
pub enum EventValue {
    Text(String),
    Flag(bool),
    Count(u64),
}

/// A failure of a run, with where it happened and what to tell the user.
pub struct RunFailure {
    pub code: &'static str,
    pub stage: &'static str,
    pub recoverable: bool,
    pub message: String,
    pub diagnostic: String,
    pub manga: Option<String>,
    pub volume: Option<String>,
    pub chapter: Option<String>,
    pub page: Option<usize>,
    pub path: Option<String>,
}

impl RunFailure {
    /// A failure with no manga, volume, chapter, page or path attached.
    pub fn new(code: &'static str, stage: &'static str, recoverable: bool, message: String, diagnostic: String) -> (f: RunFailure)
        ensures
            f.code == code && f.stage == stage && f.recoverable == recoverable,
            f.message@ == message@ && f.diagnostic@ == diagnostic@,
            f.manga is None && f.volume is None && f.chapter is None,
            f.page is None && f.path is None,
    {
        RunFailure {
            code,
            stage,
            recoverable,
            message,
            diagnostic,
            manga: None,
            volume: None,
            chapter: None,
            page: None,
            path: None,
        }
    }

    pub fn with_chapter(self, chapter: String) -> (f: RunFailure)
        ensures
            f == (RunFailure { chapter: Some(chapter), ..self }),
    {
        RunFailure { chapter: Some(chapter), ..self }
    }

    pub fn with_manga(self, manga: String) -> (f: RunFailure)
        ensures
            f == (RunFailure { manga: Some(manga), ..self }),
    {
        RunFailure { manga: Some(manga), ..self }
    }

    pub fn with_page(self, page: usize) -> (f: RunFailure)
        ensures
            f == (RunFailure { page: Some(page), ..self }),
    {
        RunFailure { page: Some(page), ..self }
    }

    pub fn with_path(self, path: String) -> (f: RunFailure)
        ensures
            f == (RunFailure { path: Some(path), ..self }),
    {
        RunFailure { path: Some(path), ..self }
    }
}

/// An event field's value as plain values.
pub enum EventValueView {
    Text(Seq<char>),
    Flag(bool),
    Count(nat),
}

pub open spec fn value_view(v: EventValue) -> EventValueView {
    match v {
        EventValue::Text(s) => EventValueView::Text(s@),
        EventValue::Flag(b) => EventValueView::Flag(b),
        EventValue::Count(n) => EventValueView::Count(n as nat),
    }
}

pub open spec fn field_views(s: Seq<(String, EventValue)>) -> Seq<(Seq<char>, EventValueView)> {
    s.map_values(|f: (String, EventValue)| (f.0@, value_view(f.1)))
}

pub open spec fn optional_text(key: Seq<char>, v: Option<String>) -> Seq<(Seq<char>, EventValueView)> {
    match v {
        Some(s) => seq![(key, EventValueView::Text(s@))],
        None => Seq::empty(),
    }
}

/// The fields of a failure's `error` event: severity, code, stage,
/// whether it is recoverable, message and diagnostic, then each of manga,
/// volume, chapter, page and path that is known.
pub open spec fn failure_field_list(f: RunFailure) -> Seq<(Seq<char>, EventValueView)> {
    seq![
        ("severity"@, EventValueView::Text("error"@)),
        ("code"@, EventValueView::Text(f.code@)),
        ("stage"@, EventValueView::Text(f.stage@)),
        ("recoverable"@, EventValueView::Flag(f.recoverable)),
        ("message"@, EventValueView::Text(f.message@)),
        ("diagnostic"@, EventValueView::Text(f.diagnostic@)),
    ] + optional_text("manga"@, f.manga) + optional_text("volume"@, f.volume) + optional_text("chapter"@, f.chapter)
        + match f.page {
        Some(p) => seq![("page"@, EventValueView::Count(p as nat))],
        None => Seq::empty(),
    } + optional_text("path"@, f.path)
}

fn text_field(key: &str, value: &str) -> (f: (String, EventValue))
    ensures
        f.0@ == key@,
        value_view(f.1) == EventValueView::Text(value@),
{
    (String::from_str(key), EventValue::Text(String::from_str(value)))
}

fn push_optional(fields: &mut Vec<(String, EventValue)>, key: &str, value: &Option<String>)
    ensures
        field_views(final(fields)@) == field_views(old(fields)@) + optional_text(key@, *value),
{
    match value {
        Some(v) => {
            let ghost before = field_views(fields@);
            let f = text_field(key, v.as_str());
            let ghost fv = (f.0@, value_view(f.1));
            fields.push(f);
            assert(field_views(fields@) =~= before.push(fv));
            assert(before.push(fv) =~= before + optional_text(key@, *value));
        },
        None => {
            assert(field_views(fields@) =~= field_views(fields@) + optional_text(key@, *value));
        },
    }
}

/// The fields of the `error` event reporting `failure` (see
/// [`failure_field_list`]).
pub fn failure_fields(failure: &RunFailure) -> (r: Vec<(String, EventValue)>)
    ensures
        field_views(r@) == failure_field_list(*failure),
{
    let mut fields: Vec<(String, EventValue)> = Vec::new();
    fields.push(text_field("severity", "error"));
    fields.push(text_field("code", failure.code));
    fields.push(text_field("stage", failure.stage));
    fields.push((String::from_str("recoverable"), EventValue::Flag(failure.recoverable)));
    fields.push(text_field("message", failure.message.as_str()));
    fields.push(text_field("diagnostic", failure.diagnostic.as_str()));
    let ghost head = field_views(fields@);
    assert(head =~= seq![
        ("severity"@, EventValueView::Text("error"@)),
        ("code"@, EventValueView::Text(failure.code@)),
        ("stage"@, EventValueView::Text(failure.stage@)),
        ("recoverable"@, EventValueView::Flag(failure.recoverable)),
        ("message"@, EventValueView::Text(failure.message@)),
        ("diagnostic"@, EventValueView::Text(failure.diagnostic@)),
    ]);
    push_optional(&mut fields, "manga", &failure.manga);
    push_optional(&mut fields, "volume", &failure.volume);
    push_optional(&mut fields, "chapter", &failure.chapter);
    let ghost before_page = field_views(fields@);
    match failure.page {
        Some(p) => {
            fields.push((String::from_str("page"), EventValue::Count(p as u64)));
            assert(field_views(fields@) =~= before_page + seq![("page"@, EventValueView::Count(p as nat))]);
        },
        None => {
            assert(field_views(fields@) =~= before_page + Seq::<(Seq<char>, EventValueView)>::empty());
        },
    }
    push_optional(&mut fields, "path", &failure.path);
    fields
}

/// The fields every event carries besides its own: the protocol version,
/// the tool's name and version, the event's sequence number and its type.
pub open spec fn event_header_list(event_type: Seq<char>, sequence: u64, tool_version: Seq<char>) -> Seq<
    (Seq<char>, EventValueView),
> {
    seq![
        ("protocol_version"@, EventValueView::Count(VERSION as nat)),
        ("tool"@, EventValueView::Text("mangapress"@)),
        ("tool_version"@, EventValueView::Text(tool_version)),
        ("sequence"@, EventValueView::Count(sequence as nat)),
        ("type"@, EventValueView::Text(event_type)),
    ]
}

/// The fields every event carries besides its own (see
/// [`event_header_list`]).
pub fn event_header_fields(event_type: &str, sequence: u64, tool_version: &str) -> (r: Vec<(String, EventValue)>)
    ensures
        field_views(r@) == event_header_list(event_type@, sequence, tool_version@),
{
    let mut fields: Vec<(String, EventValue)> = Vec::new();
    fields.push((String::from_str("protocol_version"), EventValue::Count(VERSION as u64)));
    fields.push(text_field("tool", "mangapress"));
    fields.push(text_field("tool_version", tool_version));
    fields.push((String::from_str("sequence"), EventValue::Count(sequence)));
    fields.push(text_field("type", event_type));
    assert(field_views(fields@) =~= event_header_list(event_type@, sequence, tool_version@));
    fields
}

/// What std's `Display` writes for an I/O error. Calls `format!` with the
/// error; the text comes from the operating system and is left unstated.
#[verifier::external_body]
fn io_error_text(error: &std::io::Error) -> (s: String) {
    format!("{error}")
}

/// The failure reported when the event stream itself cannot be written,
/// given the text of the error that stopped it: code
/// `event_write_failed`, stage `protocol`, not recoverable, and
/// `writing JSON event: ` followed by that text as its diagnostic.
pub fn event_write_failure_from_text(text: &str) -> (f: RunFailure)
    ensures
        f.code@ == "event_write_failed"@,
        f.stage@ == "protocol"@,
        !f.recoverable,
        f.message@ == "Couldn't write the machine-readable event stream."@,
        f.diagnostic@ == "writing JSON event: "@ + text@,
        f.manga is None && f.volume is None && f.chapter is None,
        f.page is None && f.path is None,
{
    let mut d = chars_of("writing JSON event: ");
    let t = chars_of(text);
    append_chars(&mut d, t.as_slice());
    RunFailure::new(
        "event_write_failed",
        "protocol",
        false,
        String::from_str("Couldn't write the machine-readable event stream."),
        string_from_chars(d.as_slice()),
    )
}

/// The failure reported when the event stream itself cannot be written:
/// [`event_write_failure_from_text`] of the I/O error's text as std's
/// `Display` writes it (the operating system's words, so left unstated
/// here beyond the prefix).
pub fn event_write_failure(error: std::io::Error) -> (f: RunFailure)
    ensures
        f.code@ == "event_write_failed"@,
        f.stage@ == "protocol"@,
        !f.recoverable,
        f.message@ == "Couldn't write the machine-readable event stream."@,
        "writing JSON event: "@.len() <= f.diagnostic@.len(),
        f.diagnostic@.take("writing JSON event: "@.len() as int) == "writing JSON event: "@,
        f.manga is None && f.volume is None && f.chapter is None,
        f.page is None && f.path is None,
{
    let text = io_error_text(&error);
    let f = event_write_failure_from_text(text.as_str());
    assert(f.diagnostic@.take("writing JSON event: "@.len() as int) =~= "writing JSON event: "@);
    f
}

} // verus!
