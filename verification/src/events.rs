//! The event stream of the tokenizer, as plain data, and the calls into
//! `saphyr_parser` that produce it.

use saphyr_parser::{Event, ScalarStyle, ScanError, Tag};
use vstd::prelude::*;
use crate::scalar::{ScalarTag, Style};

verus! {

/// The tokenizer at work on one input: a `saphyr_parser::Parser` over a
/// string.
#[verifier::external_body]
pub struct EventSource<'input> {
    parser: saphyr_parser::Parser<'input, saphyr_parser::StrInput<'input>>,
}

/// An event of the tokenizer, carried through as it is.
#[verifier::external_type_specification]
#[verifier::external_body]
pub struct ExEvent<'input>(saphyr_parser::Event<'input>);

/// A failure of the tokenizer, carried through as it is.
#[verifier::external_type_specification]
#[verifier::external_body]
pub struct ExScanError(saphyr_parser::ScanError);

/// A style of the tokenizer, carried through as it is.
#[verifier::external_type_specification]
#[verifier::external_body]
pub struct ExScalarStyle(saphyr_parser::ScalarStyle);

/// A tag of the tokenizer, carried through as it is.
#[verifier::external_type_specification]
#[verifier::external_body]
pub struct ExTag(saphyr_parser::Tag);

/// A failure of the tokenizer: where it happened, and what it says.
#[derive(Debug, Clone, PartialEq, Eq)]
pub struct ScanFault {
    pub line: usize,
    pub col: usize,
    pub info: String,
}

/// One structural event of the tokenizer. Anchor ids are positive; zero
/// means that the node has no anchor.
#[derive(Debug, Clone, PartialEq, Eq)]
pub enum ParseEvent {
    Nothing,
    StreamStart,
    StreamEnd,
    DocumentStart(bool),
    DocumentEnd,
    Alias(usize),
    Scalar { text: String, style: Style, anchor: usize, tag: Option<ScalarTag> },
    SequenceStart(usize),
    SequenceEnd,
    MappingStart(usize),
    MappingEnd,
}

/// An event whose style and tag are still those of the tokenizer.
pub enum RawEvent {
    Nothing,
    StreamStart,
    StreamEnd,
    DocumentStart(bool),
    DocumentEnd,
    Alias(usize),
    Scalar(String, ScalarStyle, usize, Option<Tag>),
    SequenceStart(usize),
    SequenceEnd,
    MappingStart(usize),
    MappingEnd,
}

/// What the tokenizer makes of a text: the events up to the end of its
/// stream or to its first failure, and that failure if there was one.
pub struct Scan {
    pub events: Seq<ParseEvent>,
    pub fault: Option<ScanFault>,
}

/// What the tokenizer makes of a text. The tokenizer reads nothing but the
/// text, so the same text gives the same events.
pub uninterp spec fn scanned(input: Seq<char>) -> Scan;

/// What a source has yet to hand out.
pub uninterp spec fn pending(source: EventSource<'_>) -> Scan;

/// An event of the tokenizer as plain data.
pub uninterp spec fn event_view(event: Event<'_>) -> ParseEvent;

/// A failure of the tokenizer as plain data.
pub uninterp spec fn fault_view(error: ScanError) -> ScanFault;

/// A style of the tokenizer as a style of the library.
pub uninterp spec fn style_view(style: ScalarStyle) -> Style;

/// A tag of the tokenizer as plain data.
pub uninterp spec fn tag_view(tag: Tag) -> ScalarTag;

/// The plain event that a raw event stands for.
pub open spec fn raw_view(raw: RawEvent) -> ParseEvent {
    match raw {
        RawEvent::Nothing => ParseEvent::Nothing,
        RawEvent::StreamStart => ParseEvent::StreamStart,
        RawEvent::StreamEnd => ParseEvent::StreamEnd,
        RawEvent::DocumentStart(explicit) => ParseEvent::DocumentStart(explicit),
        RawEvent::DocumentEnd => ParseEvent::DocumentEnd,
        RawEvent::Alias(id) => ParseEvent::Alias(id),
        RawEvent::Scalar(text, style, anchor, tag) => ParseEvent::Scalar {
            text,
            style: style_view(style),
            anchor,
            tag: match tag {
                Some(t) => Some(tag_view(t)),
                None => None,
            },
        },
        RawEvent::SequenceStart(id) => ParseEvent::SequenceStart(id),
        RawEvent::SequenceEnd => ParseEvent::SequenceEnd,
        RawEvent::MappingStart(id) => ParseEvent::MappingStart(id),
        RawEvent::MappingEnd => ParseEvent::MappingEnd,
    }
}

/// What a call for the next event hands over, and what it leaves: the
/// first of the pending events; or, when none is pending, the failure that
/// ends them, or nothing.
pub open spec fn hands_over(
    before: Scan,
    after: Scan,
    r: Option<Result<Event<'_>, ScanError>>,
) -> bool {
    match r {
        Some(Ok(event)) => before.events.len() > 0 && event_view(event) == before.events[0]
            && after.events == before.events.drop_first() && after.fault == before.fault,
        Some(Err(error)) => before.events.len() == 0 && before.fault == Some(fault_view(error)),
        None => before.events.len() == 0 && before.fault is None,
    }
}

/// Calls `Parser::new_from_str`. The parser has yet to hand out all that
/// the tokenizer makes of the text.
#[verifier::external_body]
pub(crate) fn open_source<'a>(input: &'a str) -> (source: EventSource<'a>)
    ensures
        pending(source) == scanned(input@),
{
    EventSource { parser: saphyr_parser::Parser::new_from_str(input) }
}

/// Calls `Parser::next_event` and drops the event's span. The parser hands
/// its events out in order, one per call; after the last it hands out its
/// failure, or nothing when the stream has ended.
#[verifier::external_body]
pub(crate) fn next_event<'a>(source: &mut EventSource<'a>) -> (r: Option<
    Result<Event<'a>, ScanError>,
>)
    ensures
        hands_over(pending(*old(source)), pending(*final(source)), r),
{
    source.parser.next_event().map(|item| item.map(|(event, _)| event))
}

/// Tells the variants of `saphyr_parser::Event` apart and moves the fields
/// out; the tags of collections are dropped.
#[verifier::external_body]
pub(crate) fn split_event(event: Event<'_>) -> (r: RawEvent)
    ensures
        raw_view(r) == event_view(event),
{
    match event {
        Event::Nothing => RawEvent::Nothing,
        Event::StreamStart => RawEvent::StreamStart,
        Event::StreamEnd => RawEvent::StreamEnd,
        Event::DocumentStart(explicit) => RawEvent::DocumentStart(explicit),
        Event::DocumentEnd => RawEvent::DocumentEnd,
        Event::Alias(id) => RawEvent::Alias(id),
        Event::Scalar(v, s, id, t) => {
            RawEvent::Scalar(v.into_owned(), s, id, t.map(|t| t.into_owned()))
        },
        Event::SequenceStart(id, _) => RawEvent::SequenceStart(id),
        Event::SequenceEnd => RawEvent::SequenceEnd,
        Event::MappingStart(id, _) => RawEvent::MappingStart(id),
        Event::MappingEnd => RawEvent::MappingEnd,
    }
}

/// Tells the variants of `saphyr_parser::ScalarStyle` apart.
#[verifier::external_body]
pub(crate) fn plain_style(style: ScalarStyle) -> (r: Style)
    ensures
        r == style_view(style),
{
    match style {
        ScalarStyle::Plain => Style::Plain,
        ScalarStyle::SingleQuoted => Style::SingleQuoted,
        ScalarStyle::DoubleQuoted => Style::DoubleQuoted,
        ScalarStyle::Literal => Style::Literal,
        ScalarStyle::Folded => Style::Folded,
    }
}

/// Moves the two fields of a `saphyr_parser::Tag` out.
#[verifier::external_body]
pub(crate) fn plain_tag(tag: Tag) -> (r: ScalarTag)
    ensures
        r == tag_view(tag),
{
    ScalarTag { handle: tag.handle, suffix: tag.suffix }
}

/// Reads the marker and the message of a `saphyr_parser::ScanError`.
#[verifier::external_body]
pub(crate) fn plain_fault(error: &ScanError) -> (r: ScanFault)
    ensures
        r == fault_view(*error),
{
    ScanFault {
        line: error.marker().line(),
        col: error.marker().col(),
        info: error.info().to_owned(),
    }
}

/// A raw event as plain data.
pub(crate) fn plain_event(raw: RawEvent) -> (r: ParseEvent)
    ensures
        r == raw_view(raw),
{
    match raw {
        RawEvent::Nothing => ParseEvent::Nothing,
        RawEvent::StreamStart => ParseEvent::StreamStart,
        RawEvent::StreamEnd => ParseEvent::StreamEnd,
        RawEvent::DocumentStart(explicit) => ParseEvent::DocumentStart(explicit),
        RawEvent::DocumentEnd => ParseEvent::DocumentEnd,
        RawEvent::Alias(id) => ParseEvent::Alias(id),
        RawEvent::Scalar(text, style, anchor, tag) => ParseEvent::Scalar {
            text,
            style: plain_style(style),
            anchor,
            tag: match tag {
                Some(t) => Some(plain_tag(t)),
                None => None,
            },
        },
        RawEvent::SequenceStart(id) => ParseEvent::SequenceStart(id),
        RawEvent::SequenceEnd => ParseEvent::SequenceEnd,
        RawEvent::MappingStart(id) => ParseEvent::MappingStart(id),
        RawEvent::MappingEnd => ParseEvent::MappingEnd,
    }
}

} // verus!
