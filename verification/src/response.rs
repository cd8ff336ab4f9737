//! The answer of a model, and what it cost in tokens.

use crate::fault;
use crate::fault::{
    absent_of, count_fault_of, first_in, found_in, no_record_of, optional_fault_of, text_fault_of,
    too_long_of, DecodeError,
};
use crate::json;
use crate::json::{slot_of, text_slot_of, Json, JsonNumber, JsonTree};
use crate::output;
use crate::output::{decode_content, OutputContentBlock};
use crate::text;
use vstd::prelude::*;

verus! {

/// The answer of a model.
#[derive(Debug, Clone, PartialEq)]
pub struct MessageResponse {
    pub id: String,
    pub kind: String,
    pub role: String,
    pub content: Vec<OutputContentBlock>,
    pub model: String,
    pub stop_reason: Option<String>,
    pub stop_sequence: Option<String>,
    pub usage: Usage,
    pub request_id: Option<String>,
}

impl MessageResponse {
    /// All tokens of the exchange, those of the cache among them.
    #[must_use]
    pub fn total_tokens(&self) -> (total: u32)
        requires
            self.usage.token_sum() <= u32::MAX,
        ensures
            total == self.usage.token_sum(),
    {
        self.usage.total_tokens()
    }
}

/// The tokens of one exchange.
#[derive(Debug, Clone, Copy, PartialEq, Eq, Structural)]
pub struct Usage {
    pub input_tokens: u32,
    pub cache_creation_input_tokens: u32,
    pub cache_read_input_tokens: u32,
    pub output_tokens: u32,
}

impl Default for Usage {
    fn default() -> (usage: Usage)
        ensures
            usage == (Usage {
                input_tokens: 0,
                cache_creation_input_tokens: 0,
                cache_read_input_tokens: 0,
                output_tokens: 0,
            }),
    {
        Usage {
            input_tokens: 0,
            cache_creation_input_tokens: 0,
            cache_read_input_tokens: 0,
            output_tokens: 0,
        }
    }
}

/// The tokens of one exchange, as the accounting takes them.
#[derive(Debug, Clone, Copy, PartialEq, Eq, Structural)]
pub struct TokenUsage {
    pub input_tokens: u32,
    pub output_tokens: u32,
    pub cache_creation_input_tokens: u32,
    pub cache_read_input_tokens: u32,
}

impl Usage {
    /// The sum of the four counts.
    pub open spec fn token_sum(self) -> int {
        self.input_tokens + self.output_tokens + self.cache_creation_input_tokens
            + self.cache_read_input_tokens
    }

    /// All tokens, those of the cache among them.
    #[must_use]
    pub fn total_tokens(&self) -> (total: u32)
        requires
            self.token_sum() <= u32::MAX,
        ensures
            total == self.token_sum(),
    {
        self.input_tokens + self.output_tokens + self.cache_creation_input_tokens
            + self.cache_read_input_tokens
    }

    /// The same counts for the accounting.
    #[must_use]
    pub fn token_usage(&self) -> (usage: TokenUsage)
        ensures
            usage == (TokenUsage {
                input_tokens: self.input_tokens,
                output_tokens: self.output_tokens,
                cache_creation_input_tokens: self.cache_creation_input_tokens,
                cache_read_input_tokens: self.cache_read_input_tokens,
            }),
            usage.token_sum() == self.token_sum(),
    {
        TokenUsage {
            input_tokens: self.input_tokens,
            output_tokens: self.output_tokens,
            cache_creation_input_tokens: self.cache_creation_input_tokens,
            cache_read_input_tokens: self.cache_read_input_tokens,
        }
    }
}

impl TokenUsage {
    /// The sum of the four counts.
    pub open spec fn token_sum(self) -> int {
        self.input_tokens + self.output_tokens + self.cache_creation_input_tokens
            + self.cache_read_input_tokens
    }

    /// All tokens, those of the cache among them.
    #[must_use]
    pub fn total_tokens(&self) -> (total: u32)
        requires
            self.token_sum() <= u32::MAX,
        ensures
            total == self.token_sum(),
    {
        self.input_tokens + self.output_tokens + self.cache_creation_input_tokens
            + self.cache_read_input_tokens
    }
}

/// An answer by what its fields hold.
pub struct ResponseView {
    pub id: Seq<char>,
    pub kind: Seq<char>,
    pub role: Seq<char>,
    pub content: Seq<output::OutputView>,
    pub model: Seq<char>,
    pub stop_reason: Option<Seq<char>>,
    pub stop_sequence: Option<Seq<char>>,
    pub usage: Usage,
    pub request_id: Option<Seq<char>>,
}

impl View for MessageResponse {
    type V = ResponseView;

    open spec fn view(&self) -> ResponseView {
        ResponseView {
            id: self.id@,
            kind: self.kind@,
            role: self.role@,
            content: output::block_views(self.content@),
            model: self.model@,
            stop_reason: text::optional_text(self.stop_reason),
            stop_sequence: text::optional_text(self.stop_sequence),
            usage: self.usage,
            request_id: text::optional_text(self.request_id),
        }
    }
}

/// The words for an array that is too long: an array inside an event is told how many of its
/// fields are known, one that stands alone is not.
pub open spec fn rest_words(nested: bool, known: Seq<char>) -> Seq<char> {
    if nested {
        known
    } else {
        "fewer elements in array"@
    }
}

/// A count of tokens: 0 where it is missing.
pub open spec fn count_value(raw: JsonTree, name: Seq<char>, place: int) -> u32 {
    match json::slot(raw, name, place) {
        Some(JsonTree::Number(json::NumberView::Unsigned(n))) => n as u32,
        _ => 0,
    }
}

/// What is wrong with the counts, if anything is.
pub open spec fn usage_fault(raw: JsonTree, nested: bool) -> Option<fault::DecodeErrorView> {
    fault::first(
        seq![fault::no_record(raw, "struct Usage"@)] + usage_field_faults(raw) + seq![
            fault::too_long(raw, 0, 4, rest_words(nested, "4 elements in sequence"@)),
        ],
    )
}

/// What is wrong with each count, in the order in which they are read.
pub open spec fn usage_field_faults(raw: JsonTree) -> Seq<Option<fault::DecodeErrorView>> {
    if raw is Array {
        seq![
            fault::count_fault(raw, "input_tokens"@, 0),
            fault::count_fault(raw, "cache_creation_input_tokens"@, 1),
            fault::count_fault(raw, "cache_read_input_tokens"@, 2),
            fault::count_fault(raw, "output_tokens"@, 3),
        ]
    } else {
        seq![
            fault::count_fault(raw, "cache_creation_input_tokens"@, 1),
            fault::count_fault(raw, "cache_read_input_tokens"@, 2),
            fault::count_fault(raw, "input_tokens"@, 0),
            fault::count_fault(raw, "output_tokens"@, 3),
        ]
    }
}

/// The counts of a record.
pub open spec fn usage_value(raw: JsonTree) -> Usage {
    Usage {
        input_tokens: count_value(raw, "input_tokens"@, 0),
        cache_creation_input_tokens: count_value(raw, "cache_creation_input_tokens"@, 1),
        cache_read_input_tokens: count_value(raw, "cache_read_input_tokens"@, 2),
        output_tokens: count_value(raw, "output_tokens"@, 3),
    }
}

/// The counts that a JSON value is, or why it is none.
pub open spec fn decoded_usage(raw: JsonTree, nested: bool) -> Result<
    Usage,
    fault::DecodeErrorView,
> {
    match usage_fault(raw, nested) {
        Some(e) => Err(e),
        None => Ok(usage_value(raw)),
    }
}

/// The counts in the field `usage`: all 0 where it is missing.
pub open spec fn usage_slot(raw: JsonTree, place: int, nested: bool) -> Result<
    Usage,
    fault::DecodeErrorView,
> {
    match json::slot(raw, "usage"@, place) {
        None => Ok(
            Usage {
                input_tokens: 0,
                cache_creation_input_tokens: 0,
                cache_read_input_tokens: 0,
                output_tokens: 0,
            },
        ),
        Some(value) => decoded_usage(value, nested),
    }
}

/// What is wrong with the field `usage`, if anything is.
pub open spec fn usage_slot_fault(raw: JsonTree, place: int, nested: bool) -> Option<
    fault::DecodeErrorView,
> {
    match usage_slot(raw, place, nested) {
        Ok(_) => None,
        Err(e) => Some(e),
    }
}

/// The content of an answer: none where it is missing.
pub open spec fn content_slot(raw: JsonTree) -> Result<
    Seq<output::OutputView>,
    fault::DecodeErrorView,
> {
    match json::slot(raw, "content"@, 3) {
        None => Ok(Seq::empty()),
        Some(JsonTree::Array(items)) => match output::decoded_content(items) {
            Ok(blocks) => Ok(blocks),
            Err(e) => Err(fault::DecodeErrorView::Content(e)),
        },
        Some(value) => Err(
            fault::DecodeErrorView::InvalidType {
                found: fault::found(value),
                expected: "a sequence"@,
            },
        ),
    }
}

/// What is wrong with the content, if anything is.
pub open spec fn content_fault(raw: JsonTree) -> Option<fault::DecodeErrorView> {
    match content_slot(raw) {
        Ok(_) => None,
        Err(e) => Some(e),
    }
}

/// What is wrong with each field of an answer that is there, in the order in which they are
/// read.
pub open spec fn response_field_faults(raw: JsonTree, nested: bool) -> Seq<
    Option<fault::DecodeErrorView>,
> {
    if raw is Array {
        seq![
            fault::text_fault(raw, "id"@, 0),
            fault::text_fault(raw, "type"@, 1),
            fault::text_fault(raw, "role"@, 2),
            content_fault(raw),
            fault::text_fault(raw, "model"@, 4),
            fault::optional_fault(raw, "stop_reason"@, 5),
            fault::optional_fault(raw, "stop_sequence"@, 6),
            usage_slot_fault(raw, 7, nested),
            fault::optional_fault(raw, "request_id"@, 8),
        ]
    } else {
        seq![
            content_fault(raw),
            fault::text_fault(raw, "id"@, 0),
            fault::text_fault(raw, "model"@, 4),
            fault::optional_fault(raw, "request_id"@, 8),
            fault::text_fault(raw, "role"@, 2),
            fault::optional_fault(raw, "stop_reason"@, 5),
            fault::optional_fault(raw, "stop_sequence"@, 6),
            fault::text_fault(raw, "type"@, 1),
            usage_slot_fault(raw, 7, nested),
        ]
    }
}

/// Which fields of an answer must be there and are not.
pub open spec fn response_absences(raw: JsonTree) -> Seq<Option<fault::DecodeErrorView>> {
    seq![
        fault::absent(raw, "id"@, 0, 0, "struct MessageResponse with 9 elements"@),
        fault::absent(raw, "type"@, 1, 0, "struct MessageResponse with 9 elements"@),
        fault::absent(raw, "role"@, 2, 0, "struct MessageResponse with 9 elements"@),
        fault::absent(raw, "content"@, 3, 0, "struct MessageResponse with 9 elements"@),
        fault::absent(raw, "model"@, 4, 0, "struct MessageResponse with 9 elements"@),
    ]
}

/// What is wrong with an answer, if anything is.
pub open spec fn response_fault(raw: JsonTree, nested: bool) -> Option<fault::DecodeErrorView> {
    fault::first(response_faults(raw, nested))
}

/// Everything that is wrong with an answer, in the order in which it is reported.
pub open spec fn response_faults(raw: JsonTree, nested: bool) -> Seq<
    Option<fault::DecodeErrorView>,
> {
    seq![fault::no_record(raw, "struct MessageResponse"@)] + response_field_faults(raw, nested)
        + response_absences(raw) + seq![
        fault::too_long(raw, 0, 9, rest_words(nested, "9 elements in sequence"@)),
    ]
}

/// A text that must be there.
pub open spec fn text_value(raw: JsonTree, name: Seq<char>, place: int) -> Seq<char> {
    match json::text_slot(raw, name, place) {
        Some(text) => text,
        None => Seq::empty(),
    }
}

/// The fields of an answer.
pub open spec fn response_value(raw: JsonTree, nested: bool) -> ResponseView {
    ResponseView {
        id: text_value(raw, "id"@, 0),
        kind: text_value(raw, "type"@, 1),
        role: text_value(raw, "role"@, 2),
        content: content_slot(raw)->Ok_0,
        model: text_value(raw, "model"@, 4),
        stop_reason: json::text_slot(raw, "stop_reason"@, 5),
        stop_sequence: json::text_slot(raw, "stop_sequence"@, 6),
        usage: usage_slot(raw, 7, nested)->Ok_0,
        request_id: json::text_slot(raw, "request_id"@, 8),
    }
}

/// The answer that a JSON value is, or why it is none. The answer stands alone, or inside an
/// event.
pub open spec fn decoded_response(raw: JsonTree, nested: bool) -> Result<
    ResponseView,
    fault::DecodeErrorView,
> {
    match response_fault(raw, nested) {
        Some(e) => Err(e),
        None => Ok(response_value(raw, nested)),
    }
}

/// A result by its answer or its error.
pub open spec fn response_outcome(result: Result<MessageResponse, DecodeError>) -> Result<
    ResponseView,
    fault::DecodeErrorView,
> {
    match result {
        Ok(response) => Ok(response@),
        Err(e) => Err(e@),
    }
}

/// A result by its counts or its error.
pub open spec fn usage_outcome(result: Result<Usage, DecodeError>) -> Result<
    Usage,
    fault::DecodeErrorView,
> {
    match result {
        Ok(usage) => Ok(usage),
        Err(e) => Err(e@),
    }
}

/// The words for an array that is too long.
fn words_for_rest<'a>(nested: bool, known: &'a str) -> (words: &'a str)
    ensures
        words@ == rest_words(nested, known@),
{
    if nested {
        known
    } else {
        "fewer elements in array"
    }
}

/// A count of tokens.
fn count_of(raw: &Json, name: &str, place: usize) -> (count: u32)
    requires
        fault::count_fault(raw@, name@, place as int) is None,
    ensures
        count == count_value(raw@, name@, place as int),
{
    match slot_of(raw, name, place) {
        Some(Json::Number(JsonNumber::Unsigned(n))) => *n as u32,
        _ => 0,
    }
}

/// A text that must be there.
fn text_of(raw: &Json, name: &str, place: usize) -> (text: String)
    ensures
        text@ == text_value(raw@, name@, place as int),
{
    match text_slot_of(raw, name, place) {
        Some(text) => text,
        None => String::new(),
    }
}

impl Usage {
    /// Reads the counts.
    pub fn deserialize(raw: &Json) -> (result: Result<Usage, DecodeError>)
        ensures
            usage_outcome(result) == decoded_usage(raw@, false),
    {
        Usage::read(raw, false)
    }

    /// Reads the counts, alone or inside an event.
    fn read(raw: &Json, nested: bool) -> (result: Result<Usage, DecodeError>)
        ensures
            usage_outcome(result) == decoded_usage(raw@, nested),
    {
        let none = no_record_of(raw, "struct Usage");
        let rest = too_long_of(raw, 0, 4, words_for_rest(nested, "4 elements in sequence"));
        let faults = match raw {
            Json::Array(_) => vec![
                none,
                count_fault_of(raw, "input_tokens", 0),
                count_fault_of(raw, "cache_creation_input_tokens", 1),
                count_fault_of(raw, "cache_read_input_tokens", 2),
                count_fault_of(raw, "output_tokens", 3),
                rest,
            ],
            _ => vec![
                none,
                count_fault_of(raw, "cache_creation_input_tokens", 1),
                count_fault_of(raw, "cache_read_input_tokens", 2),
                count_fault_of(raw, "input_tokens", 0),
                count_fault_of(raw, "output_tokens", 3),
                rest,
            ],
        };
        proof {
            let all = seq![fault::no_record(raw@, "struct Usage"@)] + usage_field_faults(raw@)
                + seq![
                fault::too_long(raw@, 0, 4, rest_words(nested, "4 elements in sequence"@)),
            ];
            assert(fault::faults_of(faults@) =~= all);
            fault::lemma_no_fault(all);
            assert(usage_fault(raw@, nested) is None ==> all[1] is None && all[2] is None
                && all[3] is None && all[4] is None);
        }
        match first_in(faults) {
            Some(e) => Err(e),
            None => Ok(
                Usage {
                    input_tokens: count_of(raw, "input_tokens", 0),
                    cache_creation_input_tokens: count_of(raw, "cache_creation_input_tokens", 1),
                    cache_read_input_tokens: count_of(raw, "cache_read_input_tokens", 2),
                    output_tokens: count_of(raw, "output_tokens", 3),
                },
            ),
        }
    }
}

/// The counts in the field `usage`.
pub(crate) fn usage_of(raw: &Json, place: usize, nested: bool) -> (result: Result<
    Usage,
    DecodeError,
>)
    ensures
        usage_outcome(result) == usage_slot(raw@, place as int, nested),
{
    match slot_of(raw, "usage", place) {
        None => Ok(Usage::default()),
        Some(value) => Usage::read(value, nested),
    }
}

/// The content of an answer.
fn content_of(raw: &Json) -> (content: Result<Vec<OutputContentBlock>, DecodeError>)
    ensures
        match content {
            Ok(blocks) => content_slot(raw@) == Ok::<
                Seq<output::OutputView>,
                fault::DecodeErrorView,
            >(output::block_views(blocks@)),
            Err(e) => content_slot(raw@) == Err::<
                Seq<output::OutputView>,
                fault::DecodeErrorView,
            >(e@),
        },
{
    match slot_of(raw, "content", 3) {
        None => {
            let blocks: Vec<OutputContentBlock> = Vec::new();
            assert(output::block_views(blocks@) =~= Seq::empty());
            Ok(blocks)
        },
        Some(Json::Array(items)) => {
            let copies = Json::copies(items);
            proof {
                json::lemma_array_tree(*items);
            }
            match decode_content(copies) {
                Ok(blocks) => Ok(blocks),
                Err(e) => Err(DecodeError::Content(e)),
            }
        },
        Some(value) => Err(
            DecodeError::InvalidType {
                found: found_in(value),
                expected: "a sequence".to_owned(),
            },
        ),
    }
}

/// What is wrong with an answer besides its content and its counts, of which it is known.
fn response_fault_of(
    raw: &Json,
    content: Option<DecodeError>,
    usage: Option<DecodeError>,
    nested: bool,
) -> (fault: Option<DecodeError>)
    requires
        fault::fault_of(content) == content_fault(raw@),
        fault::fault_of(usage) == usage_slot_fault(raw@, 7, nested),
    ensures
        fault::fault_of(fault) == response_fault(raw@, nested),
{
    let none = no_record_of(raw, "struct MessageResponse");
    let rest = too_long_of(raw, 0, 9, words_for_rest(nested, "9 elements in sequence"));
    let words = "struct MessageResponse with 9 elements";
    let faults = match raw {
        Json::Array(_) => vec![
            none,
            text_fault_of(raw, "id", 0),
            text_fault_of(raw, "type", 1),
            text_fault_of(raw, "role", 2),
            content,
            text_fault_of(raw, "model", 4),
            optional_fault_of(raw, "stop_reason", 5),
            optional_fault_of(raw, "stop_sequence", 6),
            usage,
            optional_fault_of(raw, "request_id", 8),
            absent_of(raw, "id", 0, 0, words),
            absent_of(raw, "type", 1, 0, words),
            absent_of(raw, "role", 2, 0, words),
            absent_of(raw, "content", 3, 0, words),
            absent_of(raw, "model", 4, 0, words),
            rest,
        ],
        _ => vec![
            none,
            content,
            text_fault_of(raw, "id", 0),
            text_fault_of(raw, "model", 4),
            optional_fault_of(raw, "request_id", 8),
            text_fault_of(raw, "role", 2),
            optional_fault_of(raw, "stop_reason", 5),
            optional_fault_of(raw, "stop_sequence", 6),
            text_fault_of(raw, "type", 1),
            usage,
            absent_of(raw, "id", 0, 0, words),
            absent_of(raw, "type", 1, 0, words),
            absent_of(raw, "role", 2, 0, words),
            absent_of(raw, "content", 3, 0, words),
            absent_of(raw, "model", 4, 0, words),
            rest,
        ],
    };
    assert(fault::faults_of(faults@) =~= response_faults(raw@, nested));
    first_in(faults)
}

impl MessageResponse {
    /// Reads an answer, alone or inside an event.
    pub(crate) fn read(raw: &Json, nested: bool) -> (result: Result<MessageResponse, DecodeError>)
        ensures
            response_outcome(result) == decoded_response(raw@, nested),
    {
        let (content, content_fault) = match content_of(raw) {
            Ok(content) => (content, None),
            Err(e) => (Vec::new(), Some(e)),
        };
        let (usage, usage_fault) = match usage_of(raw, 7, nested) {
            Ok(usage) => (usage, None),
            Err(e) => (Usage::default(), Some(e)),
        };
        match response_fault_of(raw, content_fault, usage_fault, nested) {
            Some(e) => Err(e),
            None => {
                proof {
                    lemma_sound_response(raw@, nested);
                }
                Ok(
                    MessageResponse {
                        id: text_of(raw, "id", 0),
                        kind: text_of(raw, "type", 1),
                        role: text_of(raw, "role", 2),
                        content,
                        model: text_of(raw, "model", 4),
                        stop_reason: text_slot_of(raw, "stop_reason", 5),
                        stop_sequence: text_slot_of(raw, "stop_sequence", 6),
                        usage,
                        request_id: text_slot_of(raw, "request_id", 8),
                    },
                )
            },
        }
    }

    /// Reads an answer.
    pub fn deserialize(raw: &Json) -> (result: Result<MessageResponse, DecodeError>)
        ensures
            response_outcome(result) == decoded_response(raw@, false),
    {
        MessageResponse::read(raw, false)
    }

    /// Reads an answer that `serde_json` parsed.
    pub fn from_value(value: serde_json::Value) -> (result: Result<MessageResponse, DecodeError>)
        ensures
            response_outcome(result) == decoded_response(json::contents(value), false),
    {
        MessageResponse::deserialize(&Json::from_value(value))
    }
}

/// The answer is a record whose fields, besides its content, are there and are what they
/// must be.
pub open spec fn readable(raw: JsonTree, nested: bool) -> bool {
    &&& raw is Object || (raw is Array && raw->Array_0.len() <= 9)
    &&& json::text_slot(raw, "id"@, 0) is Some
    &&& json::text_slot(raw, "type"@, 1) is Some
    &&& json::text_slot(raw, "role"@, 2) is Some
    &&& json::text_slot(raw, "model"@, 4) is Some
    &&& fault::optional_fault(raw, "stop_reason"@, 5) is None
    &&& fault::optional_fault(raw, "stop_sequence"@, 6) is None
    &&& usage_slot(raw, 7, nested) is Ok
    &&& fault::optional_fault(raw, "request_id"@, 8) is None
}

/// Nothing is wrong with an answer exactly where all its fields are there and are what they
/// must be.
proof fn lemma_sound_response(raw: JsonTree, nested: bool)
    ensures
        response_fault(raw, nested) is None <==> {
            &&& readable(raw, nested)
            &&& json::slot(raw, "content"@, 3) is Some
            &&& content_slot(raw) is Ok
        },
{
    let all = response_faults(raw, nested);
    fault::lemma_no_fault(all);
    if response_fault(raw, nested) is None {
        assert(all[0] is None && all[1] is None && all[2] is None && all[3] is None);
        assert(all[4] is None && all[5] is None && all[6] is None && all[7] is None);
        assert(all[8] is None && all[9] is None && all[10] is None && all[11] is None);
        assert(all[12] is None && all[13] is None && all[14] is None && all[15] is None);
    }
}

/// An answer is read exactly where all its fields are there and are what they must be, and
/// each block of its content can be read.
pub proof fn law_answer_is_read(raw: JsonTree, nested: bool)
    ensures
        decoded_response(raw, nested) is Ok <==> {
            &&& readable(raw, nested)
            &&& json::slot(raw, "content"@, 3) is Some
            &&& content_slot(raw) is Ok
        },
{
    lemma_sound_response(raw, nested);
}

/// Blocks that are not modeled do not fail an answer: where all its other fields are there,
/// and each block of its content has a type that is not modeled, or can be read, the answer
/// is read, and its content holds every block in its place.
pub proof fn law_unknown_blocks_do_not_fail_an_answer(
    raw: JsonTree,
    nested: bool,
    items: Seq<JsonTree>,
)
    requires
        json::slot(raw, "content"@, 3) == Some(JsonTree::Array(items)),
        forall|i: int|
            0 <= i < items.len() ==> #[trigger] output::decoded(items[i]) is Ok || (
            output::type_of(items[i]) is Some && !output::modeled(
                output::type_of(items[i])->Some_0,
            )),
        readable(raw, nested),
    ensures
        decoded_response(raw, nested) is Ok,
        decoded_response(raw, nested)->Ok_0.content.len() == items.len(),
        forall|i: int|
            0 <= i < items.len() ==> #[trigger] output::decoded(items[i]) == Ok::<
                output::OutputView,
                output::BlockErrorView,
            >(decoded_response(raw, nested)->Ok_0.content[i]),
{
    assert forall|i: int| 0 <= i < items.len() implies #[trigger] output::decoded(
        items[i],
    ) is Ok by {
        if output::decoded(items[i]) is Err {
            output::law_only_malformed_blocks_fail(items[i]);
        }
    }
    output::law_content_keeps_every_block(items);
    lemma_sound_response(raw, nested);
}

/// A block of a modeled type that lacks a member fails the answer, and so does one without a
/// type: the error is that of the first such block. Of an object nothing is reported before
/// it, of an array only the fields that stand before the content.
pub proof fn law_malformed_block_fails_an_answer(
    raw: JsonTree,
    nested: bool,
    items: Seq<JsonTree>,
    n: int,
)
    requires
        json::slot(raw, "content"@, 3) == Some(JsonTree::Array(items)),
        0 <= n < items.len(),
        forall|i: int| 0 <= i < n ==> #[trigger] output::decoded(items[i]) is Ok,
        output::decoded(items[n]) is Err,
        raw is Array ==> {
            &&& json::text_slot(raw, "id"@, 0) is Some
            &&& json::text_slot(raw, "type"@, 1) is Some
            &&& json::text_slot(raw, "role"@, 2) is Some
        },
    ensures
        decoded_response(raw, nested) == Err::<ResponseView, fault::DecodeErrorView>(
            fault::DecodeErrorView::Content(output::decoded(items[n])->Err_0),
        ),
{
    output::law_first_malformed_block_is_reported(items, n);
    fault::lemma_first_fault(
        response_faults(raw, nested),
        if raw is Array {
            4
        } else {
            1
        },
    );
}

/// The fields of an array are read one after the other: what is wrong before the content is
/// reported before anything in it.
pub proof fn law_earlier_field_of_an_array_is_reported(raw: JsonTree, nested: bool)
    requires
        raw is Array,
        fault::first(leading_faults(raw)) is Some,
    ensures
        decoded_response(raw, nested) == Err::<ResponseView, fault::DecodeErrorView>(
            fault::first(leading_faults(raw))->Some_0,
        ),
{
    let leading = leading_faults(raw);
    let all = response_faults(raw, nested);
    assert(leading[0] == all[1] && leading[1] == all[2] && leading[2] == all[3]);
    fault::lemma_no_fault(leading);
    let n: int = if leading[0] is Some {
        0
    } else if leading[1] is Some {
        1
    } else {
        2
    };
    fault::lemma_first_fault(leading, n);
    fault::lemma_first_fault(all, n + 1);
}

/// What is wrong with the fields of an array that stand before its content.
pub open spec fn leading_faults(raw: JsonTree) -> Seq<Option<fault::DecodeErrorView>> {
    seq![
        fault::text_fault(raw, "id"@, 0),
        fault::text_fault(raw, "type"@, 1),
        fault::text_fault(raw, "role"@, 2),
    ]
}

/// Counts that were read are the numbers that the record holds, each under its name or at its
/// place, and 0 where it is missing.
pub proof fn law_read_usage_holds_the_counts(raw: JsonTree, nested: bool, usage: Usage)
    requires
        decoded_usage(raw, nested) == usage_outcome(Ok(usage)),
    ensures
        match json::slot(raw, "input_tokens"@, 0) {
            None => usage.input_tokens == 0,
            Some(JsonTree::Number(json::NumberView::Unsigned(n))) => usage.input_tokens == n,
            _ => false,
        },
        match json::slot(raw, "cache_creation_input_tokens"@, 1) {
            None => usage.cache_creation_input_tokens == 0,
            Some(JsonTree::Number(json::NumberView::Unsigned(n))) => usage.cache_creation_input_tokens == n,
            _ => false,
        },
        match json::slot(raw, "cache_read_input_tokens"@, 2) {
            None => usage.cache_read_input_tokens == 0,
            Some(JsonTree::Number(json::NumberView::Unsigned(n))) => usage.cache_read_input_tokens == n,
            _ => false,
        },
        match json::slot(raw, "output_tokens"@, 3) {
            None => usage.output_tokens == 0,
            Some(JsonTree::Number(json::NumberView::Unsigned(n))) => usage.output_tokens == n,
            _ => false,
        },
{
    let all = usage_faults(raw, nested);
    fault::lemma_no_fault(all);
    assert(all[1] is None && all[2] is None && all[3] is None && all[4] is None);
}

/// Everything that is wrong with the counts, in the order in which it is reported.
spec fn usage_faults(raw: JsonTree, nested: bool) -> Seq<Option<fault::DecodeErrorView>> {
    seq![fault::no_record(raw, "struct Usage"@)] + usage_field_faults(raw) + seq![
        fault::too_long(raw, 0, 4, rest_words(nested, "4 elements in sequence"@)),
    ]
}

/// Counts are read exactly where they are a record, each count that is there is a number of 32
/// bits, and nothing stands behind them.
pub proof fn law_usage_is_read_where_its_counts_are_numbers(raw: JsonTree, nested: bool)
    ensures
        decoded_usage(raw, nested) is Ok <==> {
            &&& raw is Object || (raw is Array && raw->Array_0.len() <= 4)
            &&& match json::slot(raw, "input_tokens"@, 0) {
                None => true,
                Some(JsonTree::Number(json::NumberView::Unsigned(n))) => n <= 0xffff_ffff,
                _ => false,
            }
            &&& match json::slot(raw, "cache_creation_input_tokens"@, 1) {
                None => true,
                Some(JsonTree::Number(json::NumberView::Unsigned(n))) => n <= 0xffff_ffff,
                _ => false,
            }
            &&& match json::slot(raw, "cache_read_input_tokens"@, 2) {
                None => true,
                Some(JsonTree::Number(json::NumberView::Unsigned(n))) => n <= 0xffff_ffff,
                _ => false,
            }
            &&& match json::slot(raw, "output_tokens"@, 3) {
                None => true,
                Some(JsonTree::Number(json::NumberView::Unsigned(n))) => n <= 0xffff_ffff,
                _ => false,
            }
        },
{
    let all = usage_faults(raw, nested);
    fault::lemma_no_fault(all);
    if usage_fault(raw, nested) is None {
        assert(all[0] is None && all[1] is None && all[2] is None && all[3] is None && all[4] is None
            && all[5] is None);
    }
}

/// The sum is that of all four counts, for an exchange and for the accounting alike.
pub proof fn law_tokens_are_summed(usage: Usage, tokens: TokenUsage)
    ensures
        usage.token_sum() == usage.input_tokens + usage.cache_creation_input_tokens
            + usage.cache_read_input_tokens + usage.output_tokens,
        tokens.token_sum() == tokens.input_tokens + tokens.cache_creation_input_tokens
            + tokens.cache_read_input_tokens + tokens.output_tokens,
{
}

/// An answer that was read holds what the record holds: each field is the one of that name, or
/// at its place, and its content holds the block that each item is, in its place.
pub proof fn law_read_answer_holds_the_fields(
    raw: JsonTree,
    nested: bool,
    response: MessageResponse,
)
    requires
        decoded_response(raw, nested) == response_outcome(Ok(response)),
    ensures
        json::slot(raw, "id"@, 0) == Some(JsonTree::String(response.id@)),
        json::slot(raw, "type"@, 1) == Some(JsonTree::String(response.kind@)),
        json::slot(raw, "role"@, 2) == Some(JsonTree::String(response.role@)),
        json::slot(raw, "model"@, 4) == Some(JsonTree::String(response.model@)),
        json::slot(raw, "content"@, 3) is Some && json::slot(raw, "content"@, 3)->Some_0 is Array,
        json::slot(raw, "content"@, 3)->Some_0->Array_0.len() == response.content@.len(),
        forall|i: int|
            0 <= i < response.content@.len() ==> output::decoded(
                json::slot(raw, "content"@, 3)->Some_0->Array_0[i],
            ) == output::outcome(Ok(#[trigger] response.content@[i])),
        match response.stop_reason {
            Some(text) => json::slot(raw, "stop_reason"@, 5) == Some(JsonTree::String(text@)),
            None => json::slot(raw, "stop_reason"@, 5) is None || json::slot(raw, "stop_reason"@, 5) == Some(
                JsonTree::Null,
            ),
        },
        match response.stop_sequence {
            Some(text) => json::slot(raw, "stop_sequence"@, 6) == Some(JsonTree::String(text@)),
            None => json::slot(raw, "stop_sequence"@, 6) is None || json::slot(raw, "stop_sequence"@, 6) == Some(
                JsonTree::Null,
            ),
        },
        match response.request_id {
            Some(text) => json::slot(raw, "request_id"@, 8) == Some(JsonTree::String(text@)),
            None => json::slot(raw, "request_id"@, 8) is None || json::slot(raw, "request_id"@, 8) == Some(
                JsonTree::Null,
            ),
        },
        match json::slot(raw, "usage"@, 7) {
            Some(value) => decoded_usage(value, nested) == usage_outcome(Ok(response.usage)),
            None => response.usage == (Usage {
                input_tokens: 0,
                cache_creation_input_tokens: 0,
                cache_read_input_tokens: 0,
                output_tokens: 0,
            }),
        },
{
    lemma_sound_response(raw, nested);
    let items = json::slot(raw, "content"@, 3)->Some_0->Array_0;
    output::law_content_keeps_every_block(items);
    assert(output::decoded_content(items) == Ok::<Seq<output::OutputView>, output::BlockErrorView>(
        output::block_views(response.content@),
    ));
    assert(output::block_views(response.content@).len() == items.len());
    assert forall|i: int| 0 <= i < response.content@.len() implies output::decoded(items[i])
        == output::outcome(Ok(#[trigger] response.content@[i])) by {
        assert(output::block_views(response.content@)[i] == response.content@[i]@);
        assert(output::decoded(items[i]) is Ok);
    }
}

/// An answer is read exactly where it is a record of at most nine fields, its texts are there,
/// its content is a list of blocks that can all be read, its optional texts are strings or
/// null, and its counts can be read.
pub proof fn law_answer_is_read_where_its_fields_are_there(raw: JsonTree, nested: bool)
    ensures
        decoded_response(raw, nested) is Ok <==> {
            &&& raw is Object || (raw is Array && raw->Array_0.len() <= 9)
            &&& json::slot(raw, "id"@, 0) is Some && json::slot(raw, "id"@, 0)->Some_0 is String
            &&& json::slot(raw, "type"@, 1) is Some && json::slot(raw, "type"@, 1)->Some_0 is String
            &&& json::slot(raw, "role"@, 2) is Some && json::slot(raw, "role"@, 2)->Some_0 is String
            &&& json::slot(raw, "model"@, 4) is Some && json::slot(raw, "model"@, 4)->Some_0 is String
            &&& json::slot(raw, "content"@, 3) is Some && json::slot(raw, "content"@, 3)->Some_0 is Array
            &&& forall|i: int|
                0 <= i < json::slot(raw, "content"@, 3)->Some_0->Array_0.len()
                    ==> #[trigger] output::decoded(
                    json::slot(raw, "content"@, 3)->Some_0->Array_0[i],
                ) is Ok
            &&& match json::slot(raw, "stop_reason"@, 5) {
                None => true,
                Some(value) => value is String || value is Null,
            }
            &&& match json::slot(raw, "stop_sequence"@, 6) {
                None => true,
                Some(value) => value is String || value is Null,
            }
            &&& match json::slot(raw, "request_id"@, 8) {
                None => true,
                Some(value) => value is String || value is Null,
            }
            &&& match json::slot(raw, "usage"@, 7) {
                None => true,
                Some(value) => decoded_usage(value, nested) is Ok,
            }
        },
{
    lemma_sound_response(raw, nested);
    if let Some(JsonTree::Array(items)) = json::slot(raw, "content"@, 3) {
        output::law_content_keeps_every_block(items);
    }
}

/// Where an object is refused because a field is missing, that field is one that an answer must
/// have, it is not there, and those that an answer must have before it are.
pub proof fn law_missing_field_of_an_answer_is_missing(
    raw: JsonTree,
    nested: bool,
    error: DecodeError,
)
    requires
        raw is Object,
        decoded_response(raw, nested) == response_outcome(Err(error)),
        error is MissingField,
    ensures
        raw.get(error->field@) is None,
        ({
            ||| error->field@ == "id"@
            ||| error->field@ == "type"@ && raw.get("id"@) is Some
            ||| error->field@ == "role"@ && raw.get("id"@) is Some && raw.get("type"@) is Some
            ||| error->field@ == "content"@ && raw.get("id"@) is Some && raw.get("type"@) is Some
                && raw.get("role"@) is Some
            ||| error->field@ == "model"@ && raw.get("id"@) is Some && raw.get("type"@) is Some
                && raw.get("role"@) is Some && raw.get("content"@) is Some
        }),
{
    let all = response_faults(raw, nested);
    let n: int = fault::lemma_reported_fault(all);
    if let Some(value) = json::slot(raw, "usage"@, 7) {
        if usage_fault(value, nested) is Some {
            let counts = usage_faults(value, nested);
            let k: int = fault::lemma_reported_fault(counts);
            assert(counts[k] == usage_fault(value, nested));
        }
    }
    if n > 10 {
        assert(all[10] is None);
    }
    if n > 11 {
        assert(all[11] is None);
    }
    if n > 12 {
        assert(all[12] is None);
    }
    if n > 13 {
        assert(all[13] is None);
    }
}

/// What is wrong with the fields of an object is reported in the order of their keys, with those
/// of an array in their own order, and both before what is missing.
pub proof fn law_wrong_fields_are_reported_in_order(raw: JsonTree, nested: bool)
    ensures
        raw is Object ==> ({
            let faults = seq![
                fault::text_fault(raw, "id"@, 0),
                fault::text_fault(raw, "model"@, 4),
                fault::optional_fault(raw, "request_id"@, 8),
                fault::text_fault(raw, "role"@, 2),
                fault::optional_fault(raw, "stop_reason"@, 5),
                fault::optional_fault(raw, "stop_sequence"@, 6),
                fault::text_fault(raw, "type"@, 1),
            ];
            fault::first(faults) is Some && content_fault(raw) is None ==> decoded_response(
                raw,
                nested,
            ) == Err::<ResponseView, fault::DecodeErrorView>(fault::first(faults)->Some_0)
        }),
        raw is Object && content_fault(raw) is Some ==> decoded_response(raw, nested) == Err::<
            ResponseView,
            fault::DecodeErrorView,
        >(content_fault(raw)->Some_0),
        raw is Array ==> ({
            let faults = seq![
                fault::text_fault(raw, "id"@, 0),
                fault::text_fault(raw, "type"@, 1),
                fault::text_fault(raw, "role"@, 2),
                content_fault(raw),
                fault::text_fault(raw, "model"@, 4),
                fault::optional_fault(raw, "stop_reason"@, 5),
                fault::optional_fault(raw, "stop_sequence"@, 6),
            ];
            fault::first(faults) is Some ==> decoded_response(raw, nested) == Err::<
                ResponseView,
                fault::DecodeErrorView,
            >(fault::first(faults)->Some_0)
        }),
{
    let all = response_faults(raw, nested);
    if raw is Object {
        if content_fault(raw) is Some {
            fault::lemma_first_fault(all, 1);
        } else {
            let faults = seq![
                fault::text_fault(raw, "id"@, 0),
                fault::text_fault(raw, "model"@, 4),
                fault::optional_fault(raw, "request_id"@, 8),
                fault::text_fault(raw, "role"@, 2),
                fault::optional_fault(raw, "stop_reason"@, 5),
                fault::optional_fault(raw, "stop_sequence"@, 6),
                fault::text_fault(raw, "type"@, 1),
            ];
            if fault::first(faults) is Some {
                let n: int = fault::lemma_reported_fault(faults);
                assert forall|i: int| 0 <= i < n + 2 implies #[trigger] all[i] is None by {
                    if i >= 2 {
                        assert(faults[i - 2] is None);
                    }
                }
                assert(all[n + 2] == faults[n]);
                fault::lemma_first_fault(all, n + 2);
            }
        }
    } else if raw is Array {
        let faults = seq![
                    fault::text_fault(raw, "id"@, 0),
                    fault::text_fault(raw, "type"@, 1),
                    fault::text_fault(raw, "role"@, 2),
            content_fault(raw),
                    fault::text_fault(raw, "model"@, 4),
                    fault::optional_fault(raw, "stop_reason"@, 5),
                    fault::optional_fault(raw, "stop_sequence"@, 6),
        ];
        if fault::first(faults) is Some {
            let n: int = fault::lemma_reported_fault(faults);
            assert forall|i: int| 0 <= i < n + 1 implies #[trigger] all[i] is None by {
                if i >= 1 {
                    assert(faults[i - 1] is None);
                }
            }
            assert(all[n + 1] == faults[n]);
            fault::lemma_first_fault(all, n + 1);
        }
    }
}

/// What is wrong with the content: it is no list, or it holds a block that cannot be read.
pub proof fn law_fault_of_the_content(raw: JsonTree)
    ensures
        match json::slot(raw, "content"@, 3) {
            None => content_fault(raw) is None,
            Some(JsonTree::Array(items)) => match output::decoded_content(items) {
                Ok(_) => content_fault(raw) is None,
                Err(e) => content_fault(raw) == Some(fault::DecodeErrorView::Content(e)),
            },
            Some(value) => content_fault(raw) == Some(
                fault::DecodeErrorView::InvalidType {
                    found: fault::found(value),
                    expected: "a sequence"@,
                },
            ),
        },
{
}

/// A result is its value or its error.
pub proof fn law_result_is_a_value_or_an_error(
    response: MessageResponse,
    usage: Usage,
    error: DecodeError,
)
    ensures
        response_outcome(Ok(response)) == Ok::<ResponseView, fault::DecodeErrorView>(response@),
        response_outcome(Err(error)) == Err::<ResponseView, fault::DecodeErrorView>(error@),
        usage_outcome(Ok(usage)) == Ok::<Usage, fault::DecodeErrorView>(usage),
        usage_outcome(Err(error)) == Err::<Usage, fault::DecodeErrorView>(error@),
{
}

/// What is wrong with counts: they are no record, or a count is no number, the first one in the
/// order of the keys of an object, or in the order of an array.
pub proof fn law_wrong_counts_are_reported_in_order(raw: JsonTree, nested: bool)
    ensures
        raw !is Object && raw !is Array ==> decoded_usage(raw, nested) == Err::<
            Usage,
            fault::DecodeErrorView,
        >(
            fault::DecodeErrorView::InvalidType {
                found: fault::found(raw),
                expected: "struct Usage"@,
            },
        ),
        raw is Object ==> ({
            let faults = seq![
                fault::count_fault(raw, "cache_creation_input_tokens"@, 1),
                fault::count_fault(raw, "cache_read_input_tokens"@, 2),
                fault::count_fault(raw, "input_tokens"@, 0),
                fault::count_fault(raw, "output_tokens"@, 3),
            ];
            fault::first(faults) is Some ==> decoded_usage(raw, nested) == Err::<
                Usage,
                fault::DecodeErrorView,
            >(fault::first(faults)->Some_0)
        }),
        raw is Array ==> ({
            let faults = seq![
                fault::count_fault(raw, "input_tokens"@, 0),
                fault::count_fault(raw, "cache_creation_input_tokens"@, 1),
                fault::count_fault(raw, "cache_read_input_tokens"@, 2),
                fault::count_fault(raw, "output_tokens"@, 3),
            ];
            fault::first(faults) is Some ==> decoded_usage(raw, nested) == Err::<
                Usage,
                fault::DecodeErrorView,
            >(fault::first(faults)->Some_0)
        }),
{
    let all = usage_faults(raw, nested);
    if raw !is Object && raw !is Array {
        fault::lemma_first_fault(all, 0);
    } else {
        let faults = usage_field_faults(raw);
        if fault::first(faults) is Some {
            let n: int = fault::lemma_reported_fault(faults);
            assert forall|i: int| 0 <= i < n + 1 implies #[trigger] all[i] is None by {
                if i >= 1 {
                    assert(faults[i - 1] is None);
                }
            }
            assert(all[n + 1] == faults[n]);
            fault::lemma_first_fault(all, n + 1);
        }
        if raw is Array {
            assert(faults =~= seq![
                fault::count_fault(raw, "input_tokens"@, 0),
                fault::count_fault(raw, "cache_creation_input_tokens"@, 1),
                fault::count_fault(raw, "cache_read_input_tokens"@, 2),
                fault::count_fault(raw, "output_tokens"@, 3),
            ]);
        } else {
            assert(faults =~= seq![
                fault::count_fault(raw, "cache_creation_input_tokens"@, 1),
                fault::count_fault(raw, "cache_read_input_tokens"@, 2),
                fault::count_fault(raw, "input_tokens"@, 0),
                fault::count_fault(raw, "output_tokens"@, 3),
            ]);
        }
    }
}

/// Where nothing that is there is wrong, the first field that is not there is reported: of an
/// object by its name, of an array by how many fields there are. What is no record is reported
/// as what it is.
pub proof fn law_missing_fields_are_reported_in_order(raw: JsonTree, nested: bool)
    ensures
        raw !is Object && raw !is Array ==> decoded_response(raw, nested) == Err::<
            ResponseView,
            fault::DecodeErrorView,
        >(
            fault::DecodeErrorView::InvalidType {
                found: fault::found(raw),
                expected: "struct MessageResponse"@,
            },
        ),
        raw is Object && fault::first(response_field_faults(raw, nested)) is None ==> {
            &&& raw.get("id"@) is None ==> decoded_response(raw, nested) == Err::<
                ResponseView,
                fault::DecodeErrorView,
            >(fault::DecodeErrorView::MissingField { field: "id"@ })
            &&& raw.get("type"@) is None && raw.get("id"@) is Some ==> decoded_response(raw, nested) == Err::<
                ResponseView,
                fault::DecodeErrorView,
            >(fault::DecodeErrorView::MissingField { field: "type"@ })
            &&& raw.get("role"@) is None && raw.get("id"@) is Some && raw.get("type"@) is Some ==> decoded_response(raw, nested) == Err::<
                ResponseView,
                fault::DecodeErrorView,
            >(fault::DecodeErrorView::MissingField { field: "role"@ })
            &&& raw.get("content"@) is None && raw.get("id"@) is Some && raw.get("type"@) is Some && raw.get("role"@) is Some ==> decoded_response(raw, nested) == Err::<
                ResponseView,
                fault::DecodeErrorView,
            >(fault::DecodeErrorView::MissingField { field: "content"@ })
            &&& raw.get("model"@) is None && raw.get("id"@) is Some && raw.get("type"@) is Some && raw.get("role"@) is Some && raw.get("content"@) is Some ==> decoded_response(raw, nested) == Err::<
                ResponseView,
                fault::DecodeErrorView,
            >(fault::DecodeErrorView::MissingField { field: "model"@ })
        },
        raw is Array && fault::first(response_field_faults(raw, nested)) is None ==> {
            &&& raw->Array_0.len() == 0 ==> decoded_response(raw, nested) == Err::<
                ResponseView,
                fault::DecodeErrorView,
            >(
                fault::DecodeErrorView::InvalidLength {
                    len: 0,
                    expected: "struct MessageResponse with 9 elements"@,
                },
            )
            &&& raw->Array_0.len() == 1 ==> decoded_response(raw, nested) == Err::<
                ResponseView,
                fault::DecodeErrorView,
            >(
                fault::DecodeErrorView::InvalidLength {
                    len: 1,
                    expected: "struct MessageResponse with 9 elements"@,
                },
            )
            &&& raw->Array_0.len() == 2 ==> decoded_response(raw, nested) == Err::<
                ResponseView,
                fault::DecodeErrorView,
            >(
                fault::DecodeErrorView::InvalidLength {
                    len: 2,
                    expected: "struct MessageResponse with 9 elements"@,
                },
            )
            &&& raw->Array_0.len() == 3 ==> decoded_response(raw, nested) == Err::<
                ResponseView,
                fault::DecodeErrorView,
            >(
                fault::DecodeErrorView::InvalidLength {
                    len: 3,
                    expected: "struct MessageResponse with 9 elements"@,
                },
            )
            &&& raw->Array_0.len() == 4 ==> decoded_response(raw, nested) == Err::<
                ResponseView,
                fault::DecodeErrorView,
            >(
                fault::DecodeErrorView::InvalidLength {
                    len: 4,
                    expected: "struct MessageResponse with 9 elements"@,
                },
            )
        },
{
    let all = response_faults(raw, nested);
    let faults = response_field_faults(raw, nested);
    if raw !is Object && raw !is Array {
        fault::lemma_first_fault(all, 0);
    } else if fault::first(faults) is None {
        fault::lemma_no_fault(faults);
        assert forall|i: int| 0 <= i < 10 implies #[trigger] all[i] is None by {
            if i >= 1 {
                assert(faults[i - 1] is None);
            }
        }
        let absences = response_absences(raw);
        assert(all[10] == absences[0] && all[11] == absences[1] && all[12] == absences[2]
            && all[13] == absences[3] && all[14] == absences[4]);
        if all[10] is Some {
            fault::lemma_first_fault(all, 10);
        } else if all[11] is Some {
            fault::lemma_first_fault(all, 11);
        } else if all[12] is Some {
            fault::lemma_first_fault(all, 12);
        } else if all[13] is Some {
            fault::lemma_first_fault(all, 13);
        } else if all[14] is Some {
            fault::lemma_first_fault(all, 14);
        }
    }
}

} // verus!
