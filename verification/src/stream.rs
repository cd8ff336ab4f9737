//! The events of a streamed answer.

use crate::fault;
use crate::fault::{
    count_fault_of, missing_in, no_record_of, optional_fault_of, text_fault_of, too_long_of,
    DecodeError, Variants,
};
use crate::json;
use crate::json::{slot_of, text_slot_of, Json, JsonNumber, JsonTree};
use crate::output;
use crate::output::OutputContentBlock;
use crate::response;
use crate::response::{usage_of, MessageResponse, Usage};
use crate::text;
use vstd::prelude::*;

verus! {

/// A streamed answer begins.
#[derive(Debug, Clone, PartialEq)]
pub struct MessageStartEvent {
    pub message: MessageResponse,
}

/// The state of a streamed answer changes.
#[derive(Debug, Clone, PartialEq)]
pub struct MessageDeltaEvent {
    pub delta: MessageDelta,
    pub usage: Usage,
}

/// Why a streamed answer stops.
#[derive(Debug, Clone, PartialEq, Eq)]
pub struct MessageDelta {
    pub stop_reason: Option<String>,
    pub stop_sequence: Option<String>,
}

/// A block of a streamed answer begins.
#[derive(Debug, Clone, PartialEq)]
pub struct ContentBlockStartEvent {
    pub index: u32,
    pub content_block: OutputContentBlock,
}

/// A block of a streamed answer grows.
#[derive(Debug, Clone, PartialEq)]
pub struct ContentBlockDeltaEvent {
    pub index: u32,
    pub delta: ContentBlockDelta,
}

/// What a block grows by.
#[derive(Debug, Clone, PartialEq, Eq)]
pub enum ContentBlockDelta {
    TextDelta { text: String },
    InputJsonDelta { partial_json: String },
    ThinkingDelta { thinking: String },
    SignatureDelta { signature: String },
}

/// A block of a streamed answer ends.
#[derive(Debug, Clone, PartialEq, Eq)]
pub struct ContentBlockStopEvent {
    pub index: u32,
}

/// A streamed answer ends.
#[derive(Debug, Clone, PartialEq, Eq)]
pub struct MessageStopEvent {}

/// One event of a streamed answer.
#[derive(Debug, Clone, PartialEq)]
pub enum StreamEvent {
    MessageStart(MessageStartEvent),
    MessageDelta(MessageDeltaEvent),
    ContentBlockStart(ContentBlockStartEvent),
    ContentBlockDelta(ContentBlockDeltaEvent),
    ContentBlockStop(ContentBlockStopEvent),
    MessageStop(MessageStopEvent),
}

/// What a block grows by, by its text.
pub enum DeltaView {
    TextDelta { text: Seq<char> },
    InputJsonDelta { partial_json: Seq<char> },
    ThinkingDelta { thinking: Seq<char> },
    SignatureDelta { signature: Seq<char> },
}

/// An event by what its fields hold.
pub enum StreamView {
    MessageStart { message: response::ResponseView },
    MessageDelta {
        stop_reason: Option<Seq<char>>,
        stop_sequence: Option<Seq<char>>,
        usage: Usage,
    },
    ContentBlockStart { index: u32, content_block: output::OutputView },
    ContentBlockDelta { index: u32, delta: DeltaView },
    ContentBlockStop { index: u32 },
    MessageStop,
}

impl View for ContentBlockDelta {
    type V = DeltaView;

    open spec fn view(&self) -> DeltaView {
        match *self {
            ContentBlockDelta::TextDelta { text } => DeltaView::TextDelta { text: text@ },
            ContentBlockDelta::InputJsonDelta { partial_json } => DeltaView::InputJsonDelta {
                partial_json: partial_json@,
            },
            ContentBlockDelta::ThinkingDelta { thinking } => DeltaView::ThinkingDelta {
                thinking: thinking@,
            },
            ContentBlockDelta::SignatureDelta { signature } => DeltaView::SignatureDelta {
                signature: signature@,
            },
        }
    }
}

impl View for StreamEvent {
    type V = StreamView;

    open spec fn view(&self) -> StreamView {
        match *self {
            StreamEvent::MessageStart(e) => StreamView::MessageStart { message: e.message@ },
            StreamEvent::MessageDelta(e) => StreamView::MessageDelta {
                stop_reason: text::optional_text(e.delta.stop_reason),
                stop_sequence: text::optional_text(e.delta.stop_sequence),
                usage: e.usage,
            },
            StreamEvent::ContentBlockStart(e) => StreamView::ContentBlockStart {
                index: e.index,
                content_block: e.content_block@,
            },
            StreamEvent::ContentBlockDelta(e) => StreamView::ContentBlockDelta {
                index: e.index,
                delta: e.delta@,
            },
            StreamEvent::ContentBlockStop(e) => StreamView::ContentBlockStop { index: e.index },
            StreamEvent::MessageStop(_) => StreamView::MessageStop,
        }
    }
}

/// The types of events. They go by their names.
pub open spec fn event_variants() -> fault::VariantsView {
    fault::VariantsView {
        names: seq![
            "message_start"@,
            "message_delta"@,
            "content_block_start"@,
            "content_block_delta"@,
            "content_block_stop"@,
            "message_stop"@,
        ],
        numbered: false,
        record: "internally tagged enum StreamEvent"@,
        one_of: "one of `message_start`, `message_delta`, `content_block_start`, `content_block_delta`, `content_block_stop`, `message_stop`"@,
        indices: "variant index 0 <= i < 6"@,
    }
}

/// The types of what a block grows by. They go by their names, or by their places.
pub open spec fn delta_variants() -> fault::VariantsView {
    fault::VariantsView {
        names: seq![
            "text_delta"@,
            "input_json_delta"@,
            "thinking_delta"@,
            "signature_delta"@,
        ],
        numbered: true,
        record: "internally tagged enum ContentBlockDelta"@,
        one_of: "one of `text_delta`, `input_json_delta`, `thinking_delta`, `signature_delta`"@,
        indices: "variant index 0 <= i < 4"@,
    }
}

/// The types of events.
fn event_types() -> (variants: Variants)
    ensures
        variants@ == event_variants(),
{
    let variants = Variants {
        names: vec![
            "message_start".to_owned(),
            "message_delta".to_owned(),
            "content_block_start".to_owned(),
            "content_block_delta".to_owned(),
            "content_block_stop".to_owned(),
            "message_stop".to_owned(),
        ],
        numbered: false,
        record: "internally tagged enum StreamEvent".to_owned(),
        one_of: "one of `message_start`, `message_delta`, `content_block_start`, `content_block_delta`, `content_block_stop`, `message_stop`".to_owned(),
        indices: "variant index 0 <= i < 6".to_owned(),
    };
    assert(variants@.names =~= event_variants().names);
    variants
}

/// The types of what a block grows by.
fn delta_types() -> (variants: Variants)
    ensures
        variants@ == delta_variants(),
{
    let variants = Variants {
        names: vec![
            "text_delta".to_owned(),
            "input_json_delta".to_owned(),
            "thinking_delta".to_owned(),
            "signature_delta".to_owned(),
        ],
        numbered: true,
        record: "internally tagged enum ContentBlockDelta".to_owned(),
        one_of: "one of `text_delta`, `input_json_delta`, `thinking_delta`, `signature_delta`".to_owned(),
        indices: "variant index 0 <= i < 4".to_owned(),
    };
    assert(variants@.names =~= delta_variants().names);
    variants
}

/// A result by its growth or its error.
pub open spec fn delta_outcome(result: Result<ContentBlockDelta, DecodeError>) -> Result<
    DeltaView,
    fault::DecodeErrorView,
> {
    match result {
        Ok(delta) => Ok(delta@),
        Err(e) => Err(e@),
    }
}

/// A result by its event or its error.
pub open spec fn event_outcome(result: Result<StreamEvent, DecodeError>) -> Result<
    StreamView,
    fault::DecodeErrorView,
> {
    match result {
        Ok(event) => Ok(event@),
        Err(e) => Err(e@),
    }
}

/// The one text that a block grows by, or what is wrong with it.
pub open spec fn delta_text(raw: JsonTree, field: Seq<char>, record: Seq<char>) -> Result<
    Seq<char>,
    fault::DecodeErrorView,
> {
    match (
        fault::text_fault(raw, field, 1),
        json::text_slot(raw, field, 1),
        fault::too_long(raw, 1, 1, "1 element in sequence"@),
    ) {
        (Some(e), _, _) => Err(e),
        (None, None, _) => Err(fault::missing(raw, field, 1, 1, record)),
        (None, Some(_), Some(e)) => Err(e),
        (None, Some(text), None) => Ok(text),
    }
}

/// What a block grows by, inside an event.
pub open spec fn decoded_delta(raw: JsonTree) -> Result<DeltaView, fault::DecodeErrorView> {
    match delta_variants().tag_fault(raw) {
        Some(e) => Err(e),
        None => {
            let kind = delta_variants().tag(raw)->Some_0;
            if kind == "text_delta"@ {
                match delta_text(
                    raw,
                    "text"@,
                    "struct variant ContentBlockDelta::TextDelta with 1 element"@,
                ) {
                    Ok(text) => Ok(DeltaView::TextDelta { text }),
                    Err(e) => Err(e),
                }
            } else if kind == "input_json_delta"@ {
                match delta_text(
                    raw,
                    "partial_json"@,
                    "struct variant ContentBlockDelta::InputJsonDelta with 1 element"@,
                ) {
                    Ok(partial_json) => Ok(DeltaView::InputJsonDelta { partial_json }),
                    Err(e) => Err(e),
                }
            } else if kind == "thinking_delta"@ {
                match delta_text(
                    raw,
                    "thinking"@,
                    "struct variant ContentBlockDelta::ThinkingDelta with 1 element"@,
                ) {
                    Ok(thinking) => Ok(DeltaView::ThinkingDelta { thinking }),
                    Err(e) => Err(e),
                }
            } else {
                match delta_text(
                    raw,
                    "signature"@,
                    "struct variant ContentBlockDelta::SignatureDelta with 1 element"@,
                ) {
                    Ok(signature) => Ok(DeltaView::SignatureDelta { signature }),
                    Err(e) => Err(e),
                }
            }
        },
    }
}

/// The one text that a block grows by, or what is wrong with it.
fn delta_text_of(raw: &Json, field: &str, record: &str) -> (result: Result<String, DecodeError>)
    ensures
        match result {
            Ok(text) => delta_text(raw@, field@, record@) == Ok::<
                Seq<char>,
                fault::DecodeErrorView,
            >(text@),
            Err(e) => delta_text(raw@, field@, record@) == Err::<
                Seq<char>,
                fault::DecodeErrorView,
            >(e@),
        },
{
    if let Some(e) = text_fault_of(raw, field, 1) {
        return Err(e);
    }
    match text_slot_of(raw, field, 1) {
        None => Err(missing_in(raw, field, 1, 1, record)),
        Some(text) => match too_long_of(raw, 1, 1, "1 element in sequence") {
            Some(e) => Err(e),
            None => Ok(text),
        },
    }
}

impl ContentBlockDelta {
    /// Reads what a block grows by, inside an event.
    fn read(raw: &Json) -> (result: Result<ContentBlockDelta, DecodeError>)
        ensures
            delta_outcome(result) == decoded_delta(raw@),
    {
        proof {
            lemma_event_names();
        }
        let variants = delta_types();
        let kind: usize = match variants.place(raw) {
            Ok(kind) => kind,
            Err(e) => return Err(e),
        };
        proof {
            assert(variants.names@[kind as int]@ == variants@.names[kind as int]);
        }
        match kind {
            0 => match delta_text_of(
                raw,
                "text",
                "struct variant ContentBlockDelta::TextDelta with 1 element",
            ) {
                Ok(text) => Ok(ContentBlockDelta::TextDelta { text }),
                Err(e) => Err(e),
            },
            1 => match delta_text_of(
                raw,
                "partial_json",
                "struct variant ContentBlockDelta::InputJsonDelta with 1 element",
            ) {
                Ok(partial_json) => Ok(ContentBlockDelta::InputJsonDelta { partial_json }),
                Err(e) => Err(e),
            },
            2 => match delta_text_of(
                raw,
                "thinking",
                "struct variant ContentBlockDelta::ThinkingDelta with 1 element",
            ) {
                Ok(thinking) => Ok(ContentBlockDelta::ThinkingDelta { thinking }),
                Err(e) => Err(e),
            },
            _ => match delta_text_of(
                raw,
                "signature",
                "struct variant ContentBlockDelta::SignatureDelta with 1 element",
            ) {
                Ok(signature) => Ok(ContentBlockDelta::SignatureDelta { signature }),
                Err(e) => Err(e),
            },
        }
    }
}

/// The beginning of an answer.
pub open spec fn message_start(raw: JsonTree) -> Result<StreamView, fault::DecodeErrorView> {
    match json::slot(raw, "message"@, 1) {
        None => Err(
            fault::missing(raw, "message"@, 1, 1, "struct MessageStartEvent with 1 element"@),
        ),
        Some(value) => match (
            response::decoded_response(value, true),
            fault::too_long(raw, 1, 1, "1 element in sequence"@),
        ) {
            (Err(e), _) => Err(e),
            (Ok(_), Some(e)) => Err(e),
            (Ok(message), None) => Ok(StreamView::MessageStart { message }),
        },
    }
}

/// What is wrong with the reasons for which an answer stops, if anything is.
pub open spec fn stop_fault(raw: JsonTree) -> Option<fault::DecodeErrorView> {
    match (
        fault::no_record(raw, "struct MessageDelta"@),
        fault::optional_fault(raw, "stop_reason"@, 0),
        fault::optional_fault(raw, "stop_sequence"@, 1),
    ) {
        (Some(e), _, _) => Some(e),
        (None, Some(e), _) => Some(e),
        (None, None, Some(e)) => Some(e),
        (None, None, None) => fault::too_long(raw, 0, 2, "2 elements in sequence"@),
    }
}

/// A change of the state of an answer. The reasons are read first, then the counts.
pub open spec fn message_delta(raw: JsonTree) -> Result<StreamView, fault::DecodeErrorView> {
    let delta = json::slot(raw, "delta"@, 1);
    let fault = match delta {
        Some(value) => stop_fault(value),
        None => None,
    };
    match (fault, response::usage_slot(raw, 2, true), delta) {
        (Some(e), _, _) => Err(e),
        (None, Err(e), _) => Err(e),
        (None, Ok(_), None) => Err(
            fault::missing(raw, "delta"@, 1, 1, "struct MessageDeltaEvent with 2 elements"@),
        ),
        (None, Ok(usage), Some(value)) => match fault::too_long(
            raw,
            1,
            2,
            "2 elements in sequence"@,
        ) {
            Some(e) => Err(e),
            None => Ok(
                StreamView::MessageDelta {
                    stop_reason: json::text_slot(value, "stop_reason"@, 0),
                    stop_sequence: json::text_slot(value, "stop_sequence"@, 1),
                    usage,
                },
            ),
        },
    }
}

/// The index of a block, and the field `name`, which may be missing or wrong. An object is
/// read in the order of its keys, where `index` comes last, an array in its own order, where
/// `index` comes first.
pub open spec fn indexed<T>(
    raw: JsonTree,
    field: Option<Result<T, fault::DecodeErrorView>>,
    name: Seq<char>,
    record: Seq<char>,
) -> Result<(u32, T), fault::DecodeErrorView> {
    match (fault::count_fault(raw, "index"@, 1), field) {
        (Some(e), _) if raw is Array => Err(e),
        (_, Some(Err(e))) => Err(e),
        (Some(e), _) => Err(e),
        (None, _) if json::slot(raw, "index"@, 1) is None => Err(
            fault::missing(raw, "index"@, 1, 1, record),
        ),
        (None, None) => Err(fault::missing(raw, name, 2, 1, record)),
        (None, Some(Ok(value))) => match fault::too_long(raw, 1, 2, "2 elements in sequence"@) {
            Some(e) => Err(e),
            None => Ok((index_value(raw), value)),
        },
    }
}

/// The index of a block.
pub open spec fn index_value(raw: JsonTree) -> u32 {
    response::count_value(raw, "index"@, 1)
}

/// The block in the field `content_block`, if it is there.
pub open spec fn block_slot(raw: JsonTree) -> Option<
    Result<output::OutputView, fault::DecodeErrorView>,
> {
    match json::slot(raw, "content_block"@, 2) {
        Some(value) => Some(
            match output::decoded(value) {
                Ok(block) => Ok(block),
                Err(e) => Err(fault::DecodeErrorView::Content(e)),
            },
        ),
        None => None,
    }
}

/// The growth in the field `delta`, if it is there.
pub open spec fn delta_slot(raw: JsonTree) -> Option<Result<DeltaView, fault::DecodeErrorView>> {
    match json::slot(raw, "delta"@, 2) {
        Some(value) => Some(decoded_delta(value)),
        None => None,
    }
}

/// The beginning of a block.
pub open spec fn content_block_start(raw: JsonTree) -> Result<StreamView, fault::DecodeErrorView> {
    match indexed(
        raw,
        block_slot(raw),
        "content_block"@,
        "struct ContentBlockStartEvent with 2 elements"@,
    ) {
        Ok((index, content_block)) => Ok(StreamView::ContentBlockStart { index, content_block }),
        Err(e) => Err(e),
    }
}

/// The growth of a block.
pub open spec fn content_block_delta(raw: JsonTree) -> Result<StreamView, fault::DecodeErrorView> {
    match indexed(
        raw,
        delta_slot(raw),
        "delta"@,
        "struct ContentBlockDeltaEvent with 2 elements"@,
    ) {
        Ok((index, delta)) => Ok(StreamView::ContentBlockDelta { index, delta }),
        Err(e) => Err(e),
    }
}

/// The end of a block.
pub open spec fn content_block_stop(raw: JsonTree) -> Result<StreamView, fault::DecodeErrorView> {
    match (
        fault::count_fault(raw, "index"@, 1),
        json::slot(raw, "index"@, 1),
        fault::too_long(raw, 1, 1, "1 element in sequence"@),
    ) {
        (Some(e), _, _) => Err(e),
        (None, None, _) => Err(
            fault::missing(raw, "index"@, 1, 1, "struct ContentBlockStopEvent with 1 element"@),
        ),
        (None, Some(_), Some(e)) => Err(e),
        (None, Some(_), None) => Ok(StreamView::ContentBlockStop { index: index_value(raw) }),
    }
}

/// The end of an answer.
pub open spec fn message_stop(raw: JsonTree) -> Result<StreamView, fault::DecodeErrorView> {
    match fault::too_long(raw, 1, 0, "0 elements in sequence"@) {
        Some(e) => Err(e),
        None => Ok(StreamView::MessageStop),
    }
}

/// The event that a JSON value is, or why it is none.
pub open spec fn decoded_event(raw: JsonTree) -> Result<StreamView, fault::DecodeErrorView> {
    match event_variants().tag_fault(raw) {
        Some(e) => Err(e),
        None => {
            let kind = event_variants().tag(raw)->Some_0;
            if kind == "message_start"@ {
                message_start(raw)
            } else if kind == "message_delta"@ {
                message_delta(raw)
            } else if kind == "content_block_start"@ {
                content_block_start(raw)
            } else if kind == "content_block_delta"@ {
                content_block_delta(raw)
            } else if kind == "content_block_stop"@ {
                content_block_stop(raw)
            } else {
                message_stop(raw)
            }
        },
    }
}

/// The index of a block.
fn index_of(raw: &Json) -> (index: u32)
    requires
        fault::count_fault(raw@, "index"@, 1) is None,
    ensures
        index == index_value(raw@),
{
    match slot_of(raw, "index", 1) {
        Some(Json::Number(JsonNumber::Unsigned(n))) => *n as u32,
        _ => 0,
    }
}

/// The names of types are different words: they differ in their length, or in a letter.
proof fn lemma_event_names()
    ensures
        "message_start"@.len() == 13,
        "message_delta"@.len() == 13,
        "content_block_start"@.len() == 19,
        "content_block_delta"@.len() == 19,
        "content_block_stop"@.len() == 18,
        "message_stop"@.len() == 12,
        "message_start"@[8] != "message_delta"@[8],
        "content_block_start"@[14] != "content_block_delta"@[14],
        "text_delta"@.len() == 10,
        "input_json_delta"@.len() == 16,
        "thinking_delta"@.len() == 14,
        "signature_delta"@.len() == 15,
{
    reveal_strlit("message_start");
    reveal_strlit("message_delta");
    reveal_strlit("content_block_start");
    reveal_strlit("content_block_delta");
    reveal_strlit("content_block_stop");
    reveal_strlit("message_stop");
    reveal_strlit("text_delta");
    reveal_strlit("input_json_delta");
    reveal_strlit("thinking_delta");
    reveal_strlit("signature_delta");
}

/// A field that may be missing or wrong, its error by what it holds.
pub open spec fn field_view<T>(field: Option<Result<T, DecodeError>>) -> Option<
    Result<T, fault::DecodeErrorView>,
> {
    match field {
        Some(Ok(value)) => Some(Ok(value)),
        Some(Err(e)) => Some(Err(e@)),
        None => None,
    }
}

/// The index of a block, and the field `name`.
fn indexed_of<T>(
    raw: &Json,
    field: Option<Result<T, DecodeError>>,
    name: &str,
    record: &str,
) -> (result: Result<(u32, T), DecodeError>)
    ensures
        match result {
            Ok(pair) => indexed(raw@, field_view(field), name@, record@) == Ok::<
                (u32, T),
                fault::DecodeErrorView,
            >(pair),
            Err(e) => indexed(raw@, field_view(field), name@, record@) == Err::<
                (u32, T),
                fault::DecodeErrorView,
            >(e@),
        },
{
    if let Json::Array(_) = raw {
        if let Some(e) = count_fault_of(raw, "index", 1) {
            return Err(e);
        }
    }
    let field = match field {
        Some(Ok(value)) => Some(value),
        Some(Err(e)) => return Err(e),
        None => None,
    };
    if let Some(e) = count_fault_of(raw, "index", 1) {
        return Err(e);
    }
    if slot_of(raw, "index", 1).is_none() {
        return Err(missing_in(raw, "index", 1, 1, record));
    }
    match field {
        None => Err(missing_in(raw, name, 2, 1, record)),
        Some(value) => match too_long_of(raw, 1, 2, "2 elements in sequence") {
            Some(e) => Err(e),
            None => Ok((index_of(raw), value)),
        },
    }
}

/// What is wrong with the reasons for which an answer stops.
fn stop_fault_of(raw: &Json) -> (fault: Option<DecodeError>)
    ensures
        fault::fault_of(fault) == stop_fault(raw@),
{
    if let Some(e) = no_record_of(raw, "struct MessageDelta") {
        return Some(e);
    }
    if let Some(e) = optional_fault_of(raw, "stop_reason", 0) {
        return Some(e);
    }
    if let Some(e) = optional_fault_of(raw, "stop_sequence", 1) {
        return Some(e);
    }
    too_long_of(raw, 0, 2, "2 elements in sequence")
}

impl StreamEvent {
    /// The beginning of an answer.
    fn message_start(raw: &Json) -> (result: Result<StreamEvent, DecodeError>)
        ensures
            event_outcome(result) == message_start(raw@),
    {
        let value = match slot_of(raw, "message", 1) {
            Some(value) => value,
            None => return Err(
                missing_in(raw, "message", 1, 1, "struct MessageStartEvent with 1 element"),
            ),
        };
        let message = match MessageResponse::read(value, true) {
            Ok(message) => message,
            Err(e) => return Err(e),
        };
        match too_long_of(raw, 1, 1, "1 element in sequence") {
            Some(e) => Err(e),
            None => Ok(StreamEvent::MessageStart(MessageStartEvent { message })),
        }
    }

    /// A change of the state of an answer.
    fn message_delta(raw: &Json) -> (result: Result<StreamEvent, DecodeError>)
        ensures
            event_outcome(result) == message_delta(raw@),
    {
        let value = slot_of(raw, "delta", 1);
        if let Some(value) = value {
            if let Some(e) = stop_fault_of(value) {
                return Err(e);
            }
        }
        let usage = match usage_of(raw, 2, true) {
            Ok(usage) => usage,
            Err(e) => return Err(e),
        };
        let value = match value {
            Some(value) => value,
            None => return Err(
                missing_in(raw, "delta", 1, 1, "struct MessageDeltaEvent with 2 elements"),
            ),
        };
        if let Some(e) = too_long_of(raw, 1, 2, "2 elements in sequence") {
            return Err(e);
        }
        let delta = MessageDelta {
            stop_reason: text_slot_of(value, "stop_reason", 0),
            stop_sequence: text_slot_of(value, "stop_sequence", 1),
        };
        Ok(StreamEvent::MessageDelta(MessageDeltaEvent { delta, usage }))
    }

    /// The beginning of a block.
    fn content_block_start(raw: &Json) -> (result: Result<StreamEvent, DecodeError>)
        ensures
            event_outcome(result) == content_block_start(raw@),
    {
        let block = match slot_of(raw, "content_block", 2) {
            Some(value) => match OutputContentBlock::deserialize(value.clone()) {
                Ok(block) => Some(Ok(block)),
                Err(e) => Some(Err(DecodeError::Content(e))),
            },
            None => None,
        };
        match indexed_of(
            raw,
            block,
            "content_block",
            "struct ContentBlockStartEvent with 2 elements",
        ) {
            Ok((index, content_block)) => Ok(
                StreamEvent::ContentBlockStart(ContentBlockStartEvent { index, content_block }),
            ),
            Err(e) => Err(e),
        }
    }

    /// The growth of a block.
    fn content_block_delta(raw: &Json) -> (result: Result<StreamEvent, DecodeError>)
        ensures
            event_outcome(result) == content_block_delta(raw@),
    {
        let delta = match slot_of(raw, "delta", 2) {
            Some(value) => Some(ContentBlockDelta::read(value)),
            None => None,
        };
        match indexed_of(raw, delta, "delta", "struct ContentBlockDeltaEvent with 2 elements") {
            Ok((index, delta)) => Ok(
                StreamEvent::ContentBlockDelta(ContentBlockDeltaEvent { index, delta }),
            ),
            Err(e) => Err(e),
        }
    }

    /// The end of a block.
    fn content_block_stop(raw: &Json) -> (result: Result<StreamEvent, DecodeError>)
        ensures
            event_outcome(result) == content_block_stop(raw@),
    {
        if let Some(e) = count_fault_of(raw, "index", 1) {
            return Err(e);
        }
        if slot_of(raw, "index", 1).is_none() {
            return Err(
                missing_in(raw, "index", 1, 1, "struct ContentBlockStopEvent with 1 element"),
            );
        }
        match too_long_of(raw, 1, 1, "1 element in sequence") {
            Some(e) => Err(e),
            None => Ok(
                StreamEvent::ContentBlockStop(ContentBlockStopEvent { index: index_of(raw) }),
            ),
        }
    }

    /// The end of an answer.
    fn message_stop(raw: &Json) -> (result: Result<StreamEvent, DecodeError>)
        ensures
            event_outcome(result) == message_stop(raw@),
    {
        match too_long_of(raw, 1, 0, "0 elements in sequence") {
            Some(e) => Err(e),
            None => Ok(StreamEvent::MessageStop(MessageStopEvent {  })),
        }
    }

    /// Reads an event.
    pub fn deserialize(raw: &Json) -> (result: Result<StreamEvent, DecodeError>)
        ensures
            event_outcome(result) == decoded_event(raw@),
    {
        proof {
            lemma_event_names();
        }
        let variants = event_types();
        let kind: usize = match variants.place(raw) {
            Ok(kind) => kind,
            Err(e) => return Err(e),
        };
        proof {
            assert(variants.names@[kind as int]@ == variants@.names[kind as int]);
        }
        match kind {
            0 => StreamEvent::message_start(raw),
            1 => StreamEvent::message_delta(raw),
            2 => StreamEvent::content_block_start(raw),
            3 => StreamEvent::content_block_delta(raw),
            4 => StreamEvent::content_block_stop(raw),
            _ => StreamEvent::message_stop(raw),
        }
    }

    /// Reads an event that `serde_json` parsed.
    pub fn from_value(value: serde_json::Value) -> (result: Result<StreamEvent, DecodeError>)
        ensures
            event_outcome(result) == decoded_event(json::contents(value)),
    {
        StreamEvent::deserialize(&Json::from_value(value))
    }
}

/// A streamed block of a type that is not modeled is kept as it came.
pub proof fn law_streamed_server_block_is_kept(raw: JsonTree, block: JsonTree)
    requires
        event_variants().tag(raw) == Some("content_block_start"@),
        json::slot(raw, "content_block"@, 2) == Some(block),
        json::slot(raw, "index"@, 1) is Some,
        fault::count_fault(raw, "index"@, 1) is None,
        fault::too_long(raw, 1, 2, "2 elements in sequence"@) is None,
        output::type_of(block) is Some,
        !output::modeled(output::type_of(block)->Some_0),
    ensures
        decoded_event(raw) == Ok::<StreamView, fault::DecodeErrorView>(
            StreamView::ContentBlockStart {
                index: index_value(raw),
                content_block: output::OutputView::Unknown(block),
            },
        ),
{
    lemma_event_names();
    output::law_unknown_block_is_replayed(block);
}

/// A streamed block that cannot be read is reported. Of an object nothing is reported before
/// it, of an array only its index.
pub proof fn law_streamed_malformed_block_is_reported(raw: JsonTree, block: JsonTree)
    requires
        event_variants().tag(raw) == Some("content_block_start"@),
        json::slot(raw, "content_block"@, 2) == Some(block),
        output::decoded(block) is Err,
        raw is Array ==> fault::count_fault(raw, "index"@, 1) is None,
    ensures
        decoded_event(raw) == Err::<StreamView, fault::DecodeErrorView>(
            fault::DecodeErrorView::Content(output::decoded(block)->Err_0),
        ),
{
    lemma_event_names();
}

/// An array is read in its own order: a wrong index is reported before anything in the block.
pub proof fn law_earlier_field_of_a_streamed_array_is_reported(raw: JsonTree)
    requires
        event_variants().tag(raw) == Some("content_block_start"@),
        raw is Array,
        fault::count_fault(raw, "index"@, 1) is Some,
    ensures
        decoded_event(raw) == Err::<StreamView, fault::DecodeErrorView>(
            fault::count_fault(raw, "index"@, 1)->Some_0,
        ),
{
    lemma_event_names();
}

/// The record has an index: a number of 32 bits.
pub open spec fn has_index(raw: JsonTree) -> bool {
    match json::slot(raw, "index"@, 1) {
        Some(JsonTree::Number(json::NumberView::Unsigned(n))) => n <= 0xffff_ffff,
        _ => false,
    }
}

/// An event that was read holds what the record holds: each field is the one of that name, or
/// at its place. The index of a block is the number that stands there, whatever the event
/// carries.
pub proof fn law_read_event_holds_the_fields(raw: JsonTree, event: StreamEvent)
    requires
        decoded_event(raw) == event_outcome(Ok(event)),
    ensures
        match event {
            StreamEvent::MessageStart(e) => {
                &&& json::slot(raw, "type"@, 0) == Some(JsonTree::String("message_start"@))
                &&& json::slot(raw, "message"@, 1) is Some
                &&& response::decoded_response(json::slot(raw, "message"@, 1)->Some_0, true)
                    == response::response_outcome(Ok(e.message))
            },
            StreamEvent::MessageDelta(e) => {
                &&& json::slot(raw, "type"@, 0) == Some(JsonTree::String("message_delta"@))
                &&& json::slot(raw, "delta"@, 1) is Some
                &&& match e.delta.stop_reason {
                    Some(text) => json::slot(
                        json::slot(raw, "delta"@, 1)->Some_0,
                        "stop_reason"@,
                        0,
                    ) == Some(JsonTree::String(text@)),
                    None => !json::has_text(json::slot(raw, "delta"@, 1)->Some_0, "stop_reason"@, 0),
                }
                &&& match e.delta.stop_sequence {
                    Some(text) => json::slot(
                        json::slot(raw, "delta"@, 1)->Some_0,
                        "stop_sequence"@,
                        1,
                    ) == Some(JsonTree::String(text@)),
                    None => !json::has_text(json::slot(raw, "delta"@, 1)->Some_0, "stop_sequence"@, 1),
                }
                &&& match json::slot(raw, "usage"@, 2) {
                    Some(value) => response::decoded_usage(value, true) == response::usage_outcome(
                        Ok(e.usage),
                    ),
                    None => e.usage == (Usage {
                        input_tokens: 0,
                        cache_creation_input_tokens: 0,
                        cache_read_input_tokens: 0,
                        output_tokens: 0,
                    }),
                }
            },
            StreamEvent::ContentBlockStart(e) => {
                &&& json::slot(raw, "type"@, 0) == Some(JsonTree::String("content_block_start"@))
                &&& json::slot(raw, "index"@, 1) == Some(
                    JsonTree::Number(json::NumberView::Unsigned(e.index as u64)),
                )
                &&& json::slot(raw, "content_block"@, 2) is Some
                &&& output::decoded(json::slot(raw, "content_block"@, 2)->Some_0)
                    == output::outcome(Ok(e.content_block))
            },
            StreamEvent::ContentBlockDelta(e) => {
                &&& json::slot(raw, "type"@, 0) == Some(JsonTree::String("content_block_delta"@))
                &&& json::slot(raw, "index"@, 1) == Some(
                    JsonTree::Number(json::NumberView::Unsigned(e.index as u64)),
                )
                &&& json::slot(raw, "delta"@, 2) is Some
                &&& decoded_delta(json::slot(raw, "delta"@, 2)->Some_0) == delta_outcome(Ok(e.delta))
            },
            StreamEvent::ContentBlockStop(e) => {
                &&& json::slot(raw, "type"@, 0) == Some(JsonTree::String("content_block_stop"@))
                &&& json::slot(raw, "index"@, 1) == Some(
                    JsonTree::Number(json::NumberView::Unsigned(e.index as u64)),
                )
            },
            StreamEvent::MessageStop(_) => json::slot(raw, "type"@, 0) == Some(JsonTree::String("message_stop"@)),
        },
{
    lemma_event_names();
    let names = event_variants().names;
    assert(names[0] == "message_start"@ && names[1] == "message_delta"@ && names[2]
        == "content_block_start"@ && names[3] == "content_block_delta"@ && names[4]
        == "content_block_stop"@ && names[5] == "message_stop"@);
}

/// An event is read exactly where it has one of the six types by its name, and the fields that
/// the type wants.
pub proof fn law_event_is_read_where_its_fields_are_there(raw: JsonTree)
    ensures
        decoded_event(raw) is Ok <==> {
            ||| {
                &&& json::slot(raw, "type"@, 0) == Some(JsonTree::String("message_start"@))
                &&& json::slot(raw, "message"@, 1) is Some
                &&& response::decoded_response(json::slot(raw, "message"@, 1)->Some_0, true) is Ok
                &&& json::has_at_most(raw, 1)
            }
            ||| {
                &&& json::slot(raw, "type"@, 0) == Some(JsonTree::String("message_delta"@))
                &&& json::slot(raw, "delta"@, 1) is Some
                &&& stop_fault(json::slot(raw, "delta"@, 1)->Some_0) is None
                &&& json::slot(raw, "usage"@, 2) is None || response::decoded_usage(
                    json::slot(raw, "usage"@, 2)->Some_0,
                    true,
                ) is Ok
                &&& json::has_at_most(raw, 2)
            }
            ||| {
                &&& json::slot(raw, "type"@, 0) == Some(JsonTree::String("content_block_start"@))
                &&& has_index(raw)
                &&& json::slot(raw, "content_block"@, 2) is Some
                &&& output::decoded(json::slot(raw, "content_block"@, 2)->Some_0) is Ok
                &&& json::has_at_most(raw, 2)
            }
            ||| {
                &&& json::slot(raw, "type"@, 0) == Some(JsonTree::String("content_block_delta"@))
                &&& has_index(raw)
                &&& json::slot(raw, "delta"@, 2) is Some
                &&& decoded_delta(json::slot(raw, "delta"@, 2)->Some_0) is Ok
                &&& json::has_at_most(raw, 2)
            }
            ||| json::slot(raw, "type"@, 0) == Some(JsonTree::String("content_block_stop"@)) && has_index(raw) && json::has_at_most(raw, 1)
            ||| json::slot(raw, "type"@, 0) == Some(JsonTree::String("message_stop"@)) && json::has_at_most(raw, 0)
        },
{
    lemma_event_names();
    let names = event_variants().names;
    assert(names[0] == "message_start"@ && names[1] == "message_delta"@ && names[2]
        == "content_block_start"@ && names[3] == "content_block_delta"@ && names[4]
        == "content_block_stop"@ && names[5] == "message_stop"@);
}

/// The reasons for which an answer stops are read exactly where they are a record of at most
/// two texts, each a string or null where it is there.
pub proof fn law_stop_is_read_where_its_texts_are(raw: JsonTree)
    ensures
        stop_fault(raw) is None <==> {
            &&& raw is Object || (raw is Array && raw->Array_0.len() <= 2)
            &&& json::slot(raw, "stop_reason"@, 0) is None || json::has_text(raw, "stop_reason"@, 0)
                || json::slot(raw, "stop_reason"@, 0) == Some(JsonTree::Null)
            &&& json::slot(raw, "stop_sequence"@, 1) is None || json::has_text(raw, "stop_sequence"@, 1)
                || json::slot(raw, "stop_sequence"@, 1) == Some(JsonTree::Null)
        },
{
}

/// What a block grows by holds the text that the record holds, under the name that belongs to
/// its type.
pub proof fn law_read_delta_holds_the_text(raw: JsonTree, delta: ContentBlockDelta)
    requires
        decoded_delta(raw) == delta_outcome(Ok(delta)),
    ensures
        match delta {
            ContentBlockDelta::TextDelta { text } => {
                &&& json::is_of_type(raw, "text_delta"@, 0)
                &&& json::slot(raw, "text"@, 1) == Some(JsonTree::String(text@))
            },
            ContentBlockDelta::InputJsonDelta { partial_json } => {
                &&& json::is_of_type(raw, "input_json_delta"@, 1)
                &&& json::slot(raw, "partial_json"@, 1) == Some(JsonTree::String(partial_json@))
            },
            ContentBlockDelta::ThinkingDelta { thinking } => {
                &&& json::is_of_type(raw, "thinking_delta"@, 2)
                &&& json::slot(raw, "thinking"@, 1) == Some(JsonTree::String(thinking@))
            },
            ContentBlockDelta::SignatureDelta { signature } => {
                &&& json::is_of_type(raw, "signature_delta"@, 3)
                &&& json::slot(raw, "signature"@, 1) == Some(JsonTree::String(signature@))
            },
        },
{
    lemma_event_names();
    let names = delta_variants().names;
    assert(names[0] == "text_delta"@ && names[1] == "input_json_delta"@ && names[2]
        == "thinking_delta"@ && names[3] == "signature_delta"@);
}

/// What a block grows by is read exactly where it has one of the four types and the text that
/// belongs to it.
pub proof fn law_delta_is_read_where_its_text_is_there(raw: JsonTree)
    ensures
        decoded_delta(raw) is Ok <==> {
            &&& json::has_at_most(raw, 1)
            &&& {
                ||| json::is_of_type(raw, "text_delta"@, 0) && json::has_text(raw, "text"@, 1)
                ||| json::is_of_type(raw, "input_json_delta"@, 1) && json::has_text(raw, "partial_json"@, 1)
                ||| json::is_of_type(raw, "thinking_delta"@, 2) && json::has_text(raw, "thinking"@, 1)
                ||| json::is_of_type(raw, "signature_delta"@, 3) && json::has_text(raw, "signature"@, 1)
            }
        },
{
    lemma_event_names();
    let names = delta_variants().names;
    assert(names[0] == "text_delta"@ && names[1] == "input_json_delta"@ && names[2]
        == "thinking_delta"@ && names[3] == "signature_delta"@);
}

/// Why an object is no event: its type is missing, is no string or is none of the six, or a field
/// that the type wants is wrong or missing. What a field holds is reported before an index that
/// is wrong, and both before what is missing.
pub proof fn law_refused_object_is_reported(raw: JsonTree)
    requires
        raw is Object,
    ensures
        match raw.get("type"@) {
            None => decoded_event(raw) == Err::<StreamView, fault::DecodeErrorView>(
                    fault::DecodeErrorView::MissingField { field: "type"@ },
                ),
            Some(JsonTree::String(name)) => name != "message_start"@ && name != "message_delta"@ && name != "content_block_start"@ && name != "content_block_delta"@ && name != "content_block_stop"@ && name != "message_stop"@ ==> decoded_event(raw) == Err::<StreamView, fault::DecodeErrorView>(
                    fault::DecodeErrorView::UnknownVariant {
                        name,
                        expected: "one of `message_start`, `message_delta`, `content_block_start`, `content_block_delta`, `content_block_stop`, `message_stop`"@,
                    },
                ),
            Some(value) => decoded_event(raw) == Err::<StreamView, fault::DecodeErrorView>(
                    fault::DecodeErrorView::InvalidType {
                        found: fault::found(value),
                        expected: "variant identifier"@,
                    },
                ),
        },
        raw.get("type"@) == Some(JsonTree::String("content_block_stop"@)) ==> {
            &&& raw.get("index"@) is None ==> decoded_event(raw) == Err::<StreamView, fault::DecodeErrorView>(
                    fault::DecodeErrorView::MissingField { field: "index"@ },
                )
            &&& fault::count_fault(raw, "index"@, 1) is Some ==> decoded_event(raw) == Err::<StreamView, fault::DecodeErrorView>(
                    fault::count_fault(raw, "index"@, 1)->Some_0,
                )
        },
        raw.get("type"@) == Some(JsonTree::String("content_block_start"@)) ==> ({
            let block = raw.get("content_block"@);
            let wrong = block is Some && output::decoded(block->Some_0) is Err;
            let index = fault::count_fault(raw, "index"@, 1);
            &&& wrong ==> decoded_event(raw) == Err::<StreamView, fault::DecodeErrorView>(
                    fault::DecodeErrorView::Content(output::decoded(block->Some_0)->Err_0),
                )
            &&& !wrong && index is Some ==> decoded_event(raw) == Err::<StreamView, fault::DecodeErrorView>(
                    index->Some_0,
                )
            &&& !wrong && raw.get("index"@) is None ==> decoded_event(raw) == Err::<StreamView, fault::DecodeErrorView>(
                    fault::DecodeErrorView::MissingField { field: "index"@ },
                )
            &&& block is None && index is None && raw.get("index"@) is Some ==> decoded_event(raw) == Err::<StreamView, fault::DecodeErrorView>(
                    fault::DecodeErrorView::MissingField { field: "content_block"@ },
                )
        }),
        raw.get("type"@) == Some(JsonTree::String("content_block_delta"@)) ==> ({
            let delta = raw.get("delta"@);
            let wrong = delta is Some && decoded_delta(delta->Some_0) is Err;
            let index = fault::count_fault(raw, "index"@, 1);
            &&& wrong ==> decoded_event(raw) == Err::<StreamView, fault::DecodeErrorView>(
                    decoded_delta(delta->Some_0)->Err_0,
                )
            &&& !wrong && index is Some ==> decoded_event(raw) == Err::<StreamView, fault::DecodeErrorView>(
                    index->Some_0,
                )
            &&& !wrong && raw.get("index"@) is None ==> decoded_event(raw) == Err::<StreamView, fault::DecodeErrorView>(
                    fault::DecodeErrorView::MissingField { field: "index"@ },
                )
            &&& delta is None && index is None && raw.get("index"@) is Some ==> decoded_event(raw) == Err::<StreamView, fault::DecodeErrorView>(
                    fault::DecodeErrorView::MissingField { field: "delta"@ },
                )
        }),
        raw.get("type"@) == Some(JsonTree::String("message_start"@)) ==> match raw.get("message"@) {
            None => decoded_event(raw) == Err::<StreamView, fault::DecodeErrorView>(
                    fault::DecodeErrorView::MissingField { field: "message"@ },
                ),
            Some(value) => response::decoded_response(value, true) is Err ==> decoded_event(raw) == Err::<StreamView, fault::DecodeErrorView>(
                    response::decoded_response(value, true)->Err_0,
                ),
        },
        raw.get("type"@) == Some(JsonTree::String("message_delta"@)) ==> ({
            let delta = raw.get("delta"@);
            let wrong = delta is Some && stop_fault(delta->Some_0) is Some;
            let usage = raw.get("usage"@) is Some && response::decoded_usage(
                raw.get("usage"@)->Some_0,
                true,
            ) is Err;
            &&& wrong ==> decoded_event(raw) == Err::<StreamView, fault::DecodeErrorView>(
                    stop_fault(delta->Some_0)->Some_0,
                )
            &&& !wrong && usage ==> decoded_event(raw) == Err::<StreamView, fault::DecodeErrorView>(
                    response::decoded_usage(raw.get("usage"@)->Some_0, true)->Err_0,
                )
            &&& delta is None && !usage ==> decoded_event(raw) == Err::<StreamView, fault::DecodeErrorView>(
                    fault::DecodeErrorView::MissingField { field: "delta"@ },
                )
        }),
{
    lemma_event_names();
    let names = event_variants().names;
    assert(names[0] == "message_start"@ && names[1] == "message_delta"@ && names[2]
        == "content_block_start"@ && names[3] == "content_block_delta"@ && names[4]
        == "content_block_stop"@ && names[5] == "message_stop"@);
}

/// A result is its value or its error.
pub proof fn law_result_is_an_event_or_an_error(
    event: StreamEvent,
    delta: ContentBlockDelta,
    error: DecodeError,
)
    ensures
        event_outcome(Ok(event)) == Ok::<StreamView, fault::DecodeErrorView>(event@),
        event_outcome(Err(error)) == Err::<StreamView, fault::DecodeErrorView>(error@),
        delta_outcome(Ok(delta)) == Ok::<DeltaView, fault::DecodeErrorView>(delta@),
        delta_outcome(Err(error)) == Err::<DeltaView, fault::DecodeErrorView>(error@),
{
}

} // verus!
