//! The blocks of an answer, as they come from a provider: blocks of the modeled types are
//! read strictly, all others are kept as they came.

use crate::fault;
use crate::fault::{found_in, Found};
use crate::json;
use crate::json::{Json, JsonTree};
use crate::text;
use vstd::prelude::*;

verus! {

/// One block of an answer.
#[derive(Debug, Clone, PartialEq)]
pub enum OutputContentBlock {
    Text { text: String },
    ToolUse { id: String, name: String, input: Json },
    Thinking { thinking: String, signature: Option<String> },
    RedactedThinking { data: Json },
    /// A block of a type that is not modeled, kept verbatim.
    ///
    /// The wire format is open: server-side tools and compatible providers add block
    /// types. One such block must not fail the whole answer, and it must not get lost
    /// either: a paused turn is replayed with its content intact.
    Unknown(Json),
}

/// The blocks that are modeled. A block of such a type that lacks a member is an error,
/// never an unknown block.
#[derive(Debug, Clone, PartialEq)]
pub enum KnownOutputContentBlock {
    Text { text: String },
    ToolUse { id: String, name: String, input: Json },
    Thinking { thinking: String, signature: Option<String> },
    RedactedThinking { data: Json },
}

/// A modeled block by what its fields hold.
pub enum KnownView {
    Text { text: Seq<char> },
    ToolUse { id: Seq<char>, name: Seq<char>, input: JsonTree },
    Thinking { thinking: Seq<char>, signature: Option<Seq<char>> },
    RedactedThinking { data: JsonTree },
}

/// A block by what its fields hold.
pub enum OutputView {
    Known(KnownView),
    Unknown(JsonTree),
}

impl View for KnownOutputContentBlock {
    type V = KnownView;

    open spec fn view(&self) -> KnownView {
        match *self {
            KnownOutputContentBlock::Text { text } => KnownView::Text { text: text@ },
            KnownOutputContentBlock::ToolUse { id, name, input } => KnownView::ToolUse {
                id: id@,
                name: name@,
                input: input@,
            },
            KnownOutputContentBlock::Thinking { thinking, signature } => KnownView::Thinking {
                thinking: thinking@,
                signature: text::optional_text(signature),
            },
            KnownOutputContentBlock::RedactedThinking { data } => KnownView::RedactedThinking {
                data: data@,
            },
        }
    }
}

impl OutputContentBlock {
    /// The modeled block that this is, if it is one.
    pub open spec fn known(self) -> Option<KnownOutputContentBlock> {
        match self {
            OutputContentBlock::Text { text } => Some(KnownOutputContentBlock::Text { text }),
            OutputContentBlock::ToolUse { id, name, input } => Some(
                KnownOutputContentBlock::ToolUse { id, name, input },
            ),
            OutputContentBlock::Thinking { thinking, signature } => Some(
                KnownOutputContentBlock::Thinking { thinking, signature },
            ),
            OutputContentBlock::RedactedThinking { data } => Some(
                KnownOutputContentBlock::RedactedThinking { data },
            ),
            OutputContentBlock::Unknown(_) => None,
        }
    }
}

impl View for OutputContentBlock {
    type V = OutputView;

    open spec fn view(&self) -> OutputView {
        match *self {
            OutputContentBlock::Unknown(raw) => OutputView::Unknown(raw@),
            _ => OutputView::Known(self.known()->Some_0@),
        }
    }
}

impl OutputContentBlock {
    /// The modeled block, or the object of one that is not modeled.
    pub fn into_known(self) -> (result: Result<KnownOutputContentBlock, Json>)
        ensures
            match result {
                Ok(known) => self.known() == Some(known),
                Err(raw) => self == OutputContentBlock::Unknown(raw),
            },
    {
        match self {
            OutputContentBlock::Text { text } => Ok(KnownOutputContentBlock::Text { text }),
            OutputContentBlock::ToolUse { id, name, input } => Ok(
                KnownOutputContentBlock::ToolUse { id, name, input },
            ),
            OutputContentBlock::Thinking { thinking, signature } => Ok(
                KnownOutputContentBlock::Thinking { thinking, signature },
            ),
            OutputContentBlock::RedactedThinking { data } => Ok(
                KnownOutputContentBlock::RedactedThinking { data },
            ),
            OutputContentBlock::Unknown(raw) => Err(raw),
        }
    }
}

impl vstd::std_specs::convert::FromSpecImpl<KnownOutputContentBlock> for OutputContentBlock {
    open spec fn obeys_from_spec() -> bool {
        true
    }

    open spec fn from_spec(value: KnownOutputContentBlock) -> OutputContentBlock {
        match value {
            KnownOutputContentBlock::Text { text } => OutputContentBlock::Text { text },
            KnownOutputContentBlock::ToolUse { id, name, input } => OutputContentBlock::ToolUse {
                id,
                name,
                input,
            },
            KnownOutputContentBlock::Thinking { thinking, signature } =>
                OutputContentBlock::Thinking { thinking, signature },
            KnownOutputContentBlock::RedactedThinking { data } =>
                OutputContentBlock::RedactedThinking { data },
        }
    }
}

impl From<KnownOutputContentBlock> for OutputContentBlock {
    fn from(value: KnownOutputContentBlock) -> (block: OutputContentBlock) {
        match value {
            KnownOutputContentBlock::Text { text } => OutputContentBlock::Text { text },
            KnownOutputContentBlock::ToolUse { id, name, input } => OutputContentBlock::ToolUse {
                id,
                name,
                input,
            },
            KnownOutputContentBlock::Thinking { thinking, signature } =>
                OutputContentBlock::Thinking { thinking, signature },
            KnownOutputContentBlock::RedactedThinking { data } =>
                OutputContentBlock::RedactedThinking { data },
        }
    }
}

/// Why a block cannot be read.
#[derive(Debug, Clone, PartialEq, Eq)]
pub enum BlockError {
    /// There is no `type`, or it is not a string.
    MissingType,
    /// A block of a modeled type lacks a member.
    MissingField { field: String },
    /// A member of a block of a modeled type is not the string that it must be.
    NotAString { field: String, found: Found },
}

/// An error by what its fields hold.
pub enum BlockErrorView {
    MissingType,
    MissingField { field: Seq<char> },
    NotAString { field: Seq<char>, found: fault::FoundView },
}

impl View for BlockError {
    type V = BlockErrorView;

    open spec fn view(&self) -> BlockErrorView {
        match *self {
            BlockError::MissingType => BlockErrorView::MissingType,
            BlockError::MissingField { field } => BlockErrorView::MissingField { field: field@ },
            BlockError::NotAString { field, found } => BlockErrorView::NotAString {
                field: field@,
                found: found@,
            },
        }
    }
}

/// What a value is, unless it is a string.
pub open spec fn non_string(value: JsonTree) -> Option<fault::FoundView> {
    match value {
        JsonTree::String(_) => None,
        _ => Some(fault::found(value)),
    }
}

/// The member `field`, if it is there and is a string.
pub open spec fn text_member(raw: JsonTree, field: Seq<char>) -> Option<Seq<char>> {
    match raw.get(field) {
        Some(value) => value.as_str(),
        None => None,
    }
}

/// What the member `field` is, if it is there and is no string.
pub open spec fn misfit(raw: JsonTree, field: Seq<char>) -> Option<fault::FoundView> {
    match raw.get(field) {
        Some(value) => non_string(value),
        None => None,
    }
}

/// What the member `field` is, if it is there and is neither a string nor null.
pub open spec fn optional_misfit(raw: JsonTree, field: Seq<char>) -> Option<fault::FoundView> {
    match misfit(raw, field) {
        Some(fault::FoundView::Null) => None,
        found => found,
    }
}

/// The wire type of an object.
pub open spec fn type_of(raw: JsonTree) -> Option<Seq<char>> {
    text_member(raw, "type"@)
}

/// Blocks of that wire type are modeled.
pub open spec fn modeled(kind: Seq<char>) -> bool {
    ||| kind == "text"@
    ||| kind == "tool_use"@
    ||| kind == "thinking"@
    ||| kind == "redacted_thinking"@
}

/// A required string.
pub open spec fn required_text(raw: JsonTree, field: Seq<char>) -> Result<
    Seq<char>,
    BlockErrorView,
> {
    match (misfit(raw, field), text_member(raw, field)) {
        (Some(found), _) => Err(BlockErrorView::NotAString { field, found }),
        (None, None) => Err(BlockErrorView::MissingField { field }),
        (None, Some(text)) => Ok(text),
    }
}

/// A required value of any kind.
pub open spec fn required_value(raw: JsonTree, field: Seq<char>) -> Result<
    JsonTree,
    BlockErrorView,
> {
    match raw.get(field) {
        None => Err(BlockErrorView::MissingField { field }),
        Some(value) => Ok(value),
    }
}

/// A text block.
pub open spec fn text_block(raw: JsonTree) -> Result<KnownView, BlockErrorView> {
    match required_text(raw, "text"@) {
        Ok(text) => Ok(KnownView::Text { text }),
        Err(e) => Err(e),
    }
}

/// The use of a tool. A member of the wrong kind is reported before one that is missing.
pub open spec fn tool_use_block(raw: JsonTree) -> Result<KnownView, BlockErrorView> {
    match misfit(raw, "name"@) {
        Some(found) if misfit(raw, "id"@) is None => Err(
            BlockErrorView::NotAString { field: "name"@, found },
        ),
        _ => match (required_text(raw, "id"@), required_text(raw, "name"@), required_value(
            raw,
            "input"@,
        )) {
            (Err(e), _, _) => Err(e),
            (_, Err(e), _) => Err(e),
            (_, _, Err(e)) => Err(e),
            (Ok(id), Ok(name), Ok(input)) => Ok(KnownView::ToolUse { id, name, input }),
        },
    }
}

/// A thought. Without a text the text is empty; a signature may be missing or null.
pub open spec fn thinking_block(raw: JsonTree) -> Result<KnownView, BlockErrorView> {
    match (optional_misfit(raw, "signature"@), misfit(raw, "thinking"@)) {
        (Some(found), _) => Err(BlockErrorView::NotAString { field: "signature"@, found }),
        (None, Some(found)) => Err(BlockErrorView::NotAString { field: "thinking"@, found }),
        (None, None) => Ok(
            KnownView::Thinking {
                thinking: match text_member(raw, "thinking"@) {
                    Some(text) => text,
                    None => Seq::empty(),
                },
                signature: text_member(raw, "signature"@),
            },
        ),
    }
}

/// A thought that the provider withholds.
pub open spec fn redacted_block(raw: JsonTree) -> Result<KnownView, BlockErrorView> {
    match required_value(raw, "data"@) {
        Ok(data) => Ok(KnownView::RedactedThinking { data }),
        Err(e) => Err(e),
    }
}

/// The block that an object with a modeled wire type is. Members that the type does not
/// have are passed over.
pub open spec fn known_block(kind: Seq<char>, raw: JsonTree) -> Result<KnownView, BlockErrorView> {
    if kind == "text"@ {
        text_block(raw)
    } else if kind == "tool_use"@ {
        tool_use_block(raw)
    } else if kind == "thinking"@ {
        thinking_block(raw)
    } else {
        redacted_block(raw)
    }
}

/// The block that a JSON value is.
pub open spec fn decoded(raw: JsonTree) -> Result<OutputView, BlockErrorView> {
    match type_of(raw) {
        None => Err(BlockErrorView::MissingType),
        Some(kind) => if modeled(kind) {
            match known_block(kind, raw) {
                Ok(known) => Ok(OutputView::Known(known)),
                Err(e) => Err(e),
            }
        } else {
            Ok(OutputView::Unknown(raw))
        },
    }
}

/// A result by its block or its error.
pub open spec fn outcome(result: Result<OutputContentBlock, BlockError>) -> Result<
    OutputView,
    BlockErrorView,
> {
    match result {
        Ok(block) => Ok(block@),
        Err(e) => Err(e@),
    }
}

/// A result by its modeled block or its error.
pub open spec fn known_outcome(result: Result<KnownOutputContentBlock, BlockError>) -> Result<
    KnownView,
    BlockErrorView,
> {
    match result {
        Ok(block) => Ok(block@),
        Err(e) => Err(e@),
    }
}

/// What the member `field` is, if it is there and is no string.
fn misfit_of(raw: &Json, field: &str) -> (found: Option<Found>)
    ensures
        match found {
            Some(f) => misfit(raw@, field@) == Some(f@),
            None => misfit(raw@, field@) is None,
        },
{
    match raw.get(field) {
        Some(value) => match value {
            Json::String(_) => None,
            _ => Some(found_in(value)),
        },
        None => None,
    }
}

/// The member `field`, if it is there and is a string.
fn text_member_of(raw: &Json, field: &str) -> (text: Option<String>)
    ensures
        text::optional_text(text) == text_member(raw@, field@),
{
    match raw.get(field) {
        Some(Json::String(text)) => Some(text.clone()),
        _ => None,
    }
}

/// A required string.
fn required_text_of(raw: &Json, field: &str) -> (result: Result<String, BlockError>)
    ensures
        match result {
            Ok(text) => required_text(raw@, field@) == Ok::<Seq<char>, BlockErrorView>(text@),
            Err(e) => required_text(raw@, field@) == Err::<Seq<char>, BlockErrorView>(e@),
        },
{
    match misfit_of(raw, field) {
        Some(found) => Err(BlockError::NotAString { field: field.to_owned(), found }),
        None => match text_member_of(raw, field) {
            Some(text) => Ok(text),
            None => Err(BlockError::MissingField { field: field.to_owned() }),
        },
    }
}

/// A required value of any kind.
fn required_value_of(raw: &Json, field: &str) -> (result: Result<Json, BlockError>)
    ensures
        match result {
            Ok(value) => required_value(raw@, field@) == Ok::<JsonTree, BlockErrorView>(value@),
            Err(e) => required_value(raw@, field@) == Err::<JsonTree, BlockErrorView>(e@),
        },
{
    match raw.get(field) {
        Some(value) => Ok(value.clone()),
        None => Err(BlockError::MissingField { field: field.to_owned() }),
    }
}

impl KnownOutputContentBlock {
    /// A text block.
    fn text(raw: &Json) -> (result: Result<KnownOutputContentBlock, BlockError>)
        ensures
            known_outcome(result) == text_block(raw@),
    {
        match required_text_of(raw, "text") {
            Ok(text) => Ok(KnownOutputContentBlock::Text { text }),
            Err(e) => Err(e),
        }
    }

    /// The use of a tool.
    fn tool_use(raw: &Json) -> (result: Result<KnownOutputContentBlock, BlockError>)
        ensures
            known_outcome(result) == tool_use_block(raw@),
    {
        if misfit_of(raw, "id").is_none() {
            if let Some(found) = misfit_of(raw, "name") {
                return Err(BlockError::NotAString { field: "name".to_owned(), found });
            }
        }
        let id = match required_text_of(raw, "id") {
            Ok(id) => id,
            Err(e) => return Err(e),
        };
        let name = match required_text_of(raw, "name") {
            Ok(name) => name,
            Err(e) => return Err(e),
        };
        match required_value_of(raw, "input") {
            Ok(input) => Ok(KnownOutputContentBlock::ToolUse { id, name, input }),
            Err(e) => Err(e),
        }
    }

    /// A thought.
    fn thinking(raw: &Json) -> (result: Result<KnownOutputContentBlock, BlockError>)
        ensures
            known_outcome(result) == thinking_block(raw@),
    {
        match misfit_of(raw, "signature") {
            None | Some(Found::Null) => {},
            Some(found) => {
                return Err(BlockError::NotAString { field: "signature".to_owned(), found });
            },
        }
        if let Some(found) = misfit_of(raw, "thinking") {
            return Err(BlockError::NotAString { field: "thinking".to_owned(), found });
        }
        let thinking = match text_member_of(raw, "thinking") {
            Some(text) => text,
            None => String::new(),
        };
        Ok(
            KnownOutputContentBlock::Thinking {
                thinking,
                signature: text_member_of(raw, "signature"),
            },
        )
    }

    /// A thought that the provider withholds.
    fn redacted_thinking(raw: &Json) -> (result: Result<KnownOutputContentBlock, BlockError>)
        ensures
            known_outcome(result) == redacted_block(raw@),
    {
        match required_value_of(raw, "data") {
            Ok(data) => Ok(KnownOutputContentBlock::RedactedThinking { data }),
            Err(e) => Err(e),
        }
    }
}

impl OutputContentBlock {
    /// Reads a block. A block of a modeled type that lacks a member is an error; one of
    /// another type is kept as it came; one without a type is an error.
    pub fn deserialize(raw: Json) -> (result: Result<OutputContentBlock, BlockError>)
        ensures
            outcome(result) == decoded(raw@),
    {
        let kind = match text_member_of(&raw, "type") {
            Some(kind) => kind,
            None => return Err(BlockError::MissingType),
        };
        let known = if kind == "text".to_owned() {
            KnownOutputContentBlock::text(&raw)
        } else if kind == "tool_use".to_owned() {
            KnownOutputContentBlock::tool_use(&raw)
        } else if kind == "thinking".to_owned() {
            KnownOutputContentBlock::thinking(&raw)
        } else if kind == "redacted_thinking".to_owned() {
            KnownOutputContentBlock::redacted_thinking(&raw)
        } else {
            return Ok(OutputContentBlock::Unknown(raw));
        };
        match known {
            Ok(known) => Ok(OutputContentBlock::from(known)),
            Err(e) => Err(e),
        }
    }

    /// Reads a block that `serde_json` parsed.
    pub fn from_value(value: serde_json::Value) -> (result: Result<OutputContentBlock, BlockError>)
        ensures
            outcome(result) == decoded(json::contents(value)),
    {
        OutputContentBlock::deserialize(Json::from_value(value))
    }

    /// The wire type of this block, whether or not it is modeled.
    pub open spec fn wire_type(self) -> Seq<char> {
        match self {
            OutputContentBlock::Text { .. } => "text"@,
            OutputContentBlock::ToolUse { .. } => "tool_use"@,
            OutputContentBlock::Thinking { .. } => "thinking"@,
            OutputContentBlock::RedactedThinking { .. } => "redacted_thinking"@,
            OutputContentBlock::Unknown(raw) => match type_of(raw@) {
                Some(kind) => kind,
                None => Seq::empty(),
            },
        }
    }

    /// The wire type of this block, whether or not it is modeled. It is empty where an
    /// unknown block has none.
    #[must_use]
    pub fn kind(&self) -> (kind: &str)
        ensures
            kind@ == self.wire_type(),
    {
        match self {
            OutputContentBlock::Text { .. } => "text",
            OutputContentBlock::ToolUse { .. } => "tool_use",
            OutputContentBlock::Thinking { .. } => "thinking",
            OutputContentBlock::RedactedThinking { .. } => "redacted_thinking",
            OutputContentBlock::Unknown(raw) => match raw.get("type") {
                Some(Json::String(kind)) => kind.as_str(),
                _ => {
                    proof {
                        reveal_strlit("");
                    }
                    ""
                },
            },
        }
    }
}

/// The object that a modeled block is on the wire, its members in the order of their keys.
/// A signature that is not there is left out.
pub open spec fn encoded_known(block: KnownView) -> JsonTree {
    match block {
        KnownView::Text { text } => JsonTree::Object(
            seq![("text"@, JsonTree::String(text)), ("type"@, JsonTree::String("text"@))],
        ),
        KnownView::ToolUse { id, name, input } => JsonTree::Object(
            seq![
                ("id"@, JsonTree::String(id)),
                ("input"@, input),
                ("name"@, JsonTree::String(name)),
                ("type"@, JsonTree::String("tool_use"@)),
            ],
        ),
        KnownView::Thinking { thinking, signature: None } => JsonTree::Object(
            seq![
                ("thinking"@, JsonTree::String(thinking)),
                ("type"@, JsonTree::String("thinking"@)),
            ],
        ),
        KnownView::Thinking { thinking, signature: Some(signature) } => JsonTree::Object(
            seq![
                ("signature"@, JsonTree::String(signature)),
                ("thinking"@, JsonTree::String(thinking)),
                ("type"@, JsonTree::String("thinking"@)),
            ],
        ),
        KnownView::RedactedThinking { data } => JsonTree::Object(
            seq![("data"@, data), ("type"@, JsonTree::String("redacted_thinking"@))],
        ),
    }
}

/// What a block is on the wire.
pub open spec fn encoded(block: OutputView) -> JsonTree {
    match block {
        OutputView::Known(known) => encoded_known(known),
        OutputView::Unknown(raw) => raw,
    }
}

impl KnownOutputContentBlock {
    /// Writes a modeled block.
    pub fn serialize(&self) -> (raw: Json)
        ensures
            raw@ == encoded_known(self@),
    {
        let mut members: Vec<(String, Json)> = Vec::new();
        match self {
            KnownOutputContentBlock::Text { text } => {
                members.push(("text".to_owned(), Json::String(text.clone())));
                members.push(("type".to_owned(), Json::String("text".to_owned())));
            },
            KnownOutputContentBlock::ToolUse { id, name, input } => {
                members.push(("id".to_owned(), Json::String(id.clone())));
                members.push(("input".to_owned(), input.clone()));
                members.push(("name".to_owned(), Json::String(name.clone())));
                members.push(("type".to_owned(), Json::String("tool_use".to_owned())));
            },
            KnownOutputContentBlock::Thinking { thinking, signature } => {
                if let Some(signature) = signature {
                    members.push(("signature".to_owned(), Json::String(signature.clone())));
                }
                members.push(("thinking".to_owned(), Json::String(thinking.clone())));
                members.push(("type".to_owned(), Json::String("thinking".to_owned())));
            },
            KnownOutputContentBlock::RedactedThinking { data } => {
                members.push(("data".to_owned(), data.clone()));
                members.push(("type".to_owned(), Json::String("redacted_thinking".to_owned())));
            },
        }
        assert(json::member_trees(members@) =~= encoded_known(self@)->Object_0);
        Json::object(members)
    }
}

impl OutputContentBlock {
    /// Writes a block: an unknown one as it came.
    pub fn serialize(&self) -> (raw: Json)
        ensures
            raw@ == encoded(self@),
    {
        match self {
            OutputContentBlock::Text { text } => KnownOutputContentBlock::Text {
                text: text.clone(),
            }.serialize(),
            OutputContentBlock::ToolUse { id, name, input } => KnownOutputContentBlock::ToolUse {
                id: id.clone(),
                name: name.clone(),
                input: input.clone(),
            }.serialize(),
            OutputContentBlock::Thinking { thinking, signature } =>
                KnownOutputContentBlock::Thinking {
                thinking: thinking.clone(),
                signature: match signature {
                    Some(signature) => Some(signature.clone()),
                    None => None,
                },
            }.serialize(),
            OutputContentBlock::RedactedThinking { data } =>
                KnownOutputContentBlock::RedactedThinking { data: data.clone() }.serialize(),
            OutputContentBlock::Unknown(raw) => raw.clone(),
        }
    }
}

/// The words for an error.
pub open spec fn error_message(error: BlockErrorView) -> Seq<char> {
    match error {
        BlockErrorView::MissingType => "content block is missing a string `type`"@,
        BlockErrorView::MissingField { field } => "missing field `"@ + field + "`"@,
        BlockErrorView::NotAString { found, .. } => "invalid type: "@ + fault::unexpected(found)
            + ", expected a string"@,
    }
}

impl BlockError {
    /// The words for this error.
    pub fn message(&self) -> (message: String)
        ensures
            message@ == error_message(self@),
    {
        match self {
            BlockError::MissingType => "content block is missing a string `type`".to_owned(),
            BlockError::MissingField { field } => {
                let mut message = "missing field `".to_owned();
                message.append(field.as_str());
                message.append("`");
                message
            },
            BlockError::NotAString { found, .. } => {
                let mut message = "invalid type: ".to_owned();
                message.append(found.words().as_str());
                message.append(", expected a string");
                message
            },
        }
    }
}

/// What the content of an answer is: every block in its place, or the error of the first
/// block that cannot be read.
pub open spec fn decoded_content(items: Seq<JsonTree>) -> Result<Seq<OutputView>, BlockErrorView>
    decreases items.len(),
{
    if items.len() == 0 {
        Ok(Seq::empty())
    } else {
        match (decoded_content(items.drop_last()), decoded(items.last())) {
            (Err(e), _) => Err(e),
            (_, Err(e)) => Err(e),
            (Ok(blocks), Ok(block)) => Ok(blocks.push(block)),
        }
    }
}

/// The blocks, each by what it holds.
pub open spec fn block_views(blocks: Seq<OutputContentBlock>) -> Seq<OutputView> {
    Seq::new(blocks.len(), |i: int| blocks[i]@)
}

/// Reads the content of an answer.
pub fn decode_content(items: Vec<Json>) -> (result: Result<Vec<OutputContentBlock>, BlockError>)
    ensures
        match result {
            Ok(blocks) => decoded_content(json::trees(items@)) == Ok::<
                Seq<OutputView>,
                BlockErrorView,
            >(block_views(blocks@)),
            Err(e) => decoded_content(json::trees(items@)) == Err::<
                Seq<OutputView>,
                BlockErrorView,
            >(e@),
        },
{
    let ghost all = json::trees(items@);
    let mut blocks: Vec<OutputContentBlock> = Vec::new();
    proof {
        assert(block_views(blocks@) =~= Seq::empty());
    }
    for item in it: items
        invariant
            it.seq() == items@,
            all == json::trees(items@),
            decoded_content(all.take(it.index())) == Ok::<Seq<OutputView>, BlockErrorView>(
                block_views(blocks@),
            ),
    {
        let ghost before = block_views(blocks@);
        let ghost k: int = it.index();
        proof {
            assert(all.take(k + 1).drop_last() =~= all.take(k));
            assert(all.take(k + 1).last() == item@);
        }
        match OutputContentBlock::deserialize(item) {
            Ok(block) => {
                blocks.push(block);
                proof {
                    assert(block_views(blocks@) =~= before.push(block@));
                }
            },
            Err(e) => {
                proof {
                    lemma_error_stays(all, k + 1);
                }
                return Err(e);
            },
        }
    }
    proof {
        assert(all.take(all.len() as int) =~= all);
    }
    Ok(blocks)
}

/// Where the first `n` blocks cannot be read, all of them cannot.
proof fn lemma_error_stays(items: Seq<JsonTree>, n: int)
    requires
        0 <= n <= items.len(),
        decoded_content(items.take(n)) is Err,
    ensures
        decoded_content(items) == decoded_content(items.take(n)),
    decreases items.len() - n,
{
    if n == items.len() {
        assert(items.take(n) =~= items);
    } else {
        assert(items.take(n + 1).drop_last() =~= items.take(n));
        lemma_error_stays(items, n + 1);
    }
}

/// The names of members and types are different words.
proof fn lemma_names()
    ensures
        modeled("text"@),
        modeled("tool_use"@),
        modeled("thinking"@),
        modeled("redacted_thinking"@),
        "text"@ != "tool_use"@,
        "text"@ != "thinking"@,
        "text"@ != "redacted_thinking"@,
        "tool_use"@ != "thinking"@,
        "tool_use"@ != "redacted_thinking"@,
        "thinking"@ != "redacted_thinking"@,
        "type"@ != "text"@,
        "type"@ != "id"@,
        "type"@ != "input"@,
        "type"@ != "name"@,
        "type"@ != "thinking"@,
        "type"@ != "signature"@,
        "type"@ != "data"@,
        "id"@ != "input"@,
        "id"@ != "name"@,
        "input"@ != "name"@,
        "thinking"@ != "signature"@,
{
    reveal_strlit("text");
    reveal_strlit("tool_use");
    reveal_strlit("thinking");
    reveal_strlit("redacted_thinking");
    reveal_strlit("type");
    reveal_strlit("id");
    reveal_strlit("input");
    reveal_strlit("name");
    reveal_strlit("signature");
    reveal_strlit("data");
    assert("text"@.len() != "redacted_thinking"@.len());
    assert("id"@.len() != "input"@.len());
    assert("type"@[1] != "text"@[1]);
    assert("type"@[0] != "name"@[0]);
    assert("type"@[0] != "data"@[0]);
    assert("tool_use"@[1] != "thinking"@[1]);
}

/// What was written of a block of a modeled type is read back as that block.
pub proof fn law_known_block_is_read_back(block: KnownView)
    ensures
        decoded(encoded_known(block)) == Ok::<OutputView, BlockErrorView>(OutputView::Known(block)),
{
    lemma_names();
    let raw = encoded_known(block);
    let members = raw->Object_0;
    reveal_with_fuel(json::member_of, 5);
    assert(members.skip(1).skip(1) =~= members.skip(2));
    if members.len() > 2 {
        assert(members.skip(1).skip(1).skip(1) =~= members.skip(3));
    }
    assert(type_of(raw) is Some);
}

/// A block of a type that is not modeled is kept as it came, and goes out again as it came.
pub proof fn law_unknown_block_is_replayed(raw: JsonTree)
    requires
        type_of(raw) is Some,
        !modeled(type_of(raw)->Some_0),
    ensures
        decoded(raw) == Ok::<OutputView, BlockErrorView>(OutputView::Unknown(raw)),
        encoded(OutputView::Unknown(raw)) == raw,
{
}

/// A block of a modeled type is read strictly or refused: it never becomes an unknown one.
pub proof fn law_modeled_type_is_never_unknown(raw: JsonTree)
    requires
        type_of(raw) is Some,
        modeled(type_of(raw)->Some_0),
    ensures
        decoded(raw) is Err || decoded(raw)->Ok_0 is Known,
{
}

/// A block without a type, or whose type is no string, is refused: it is not unknown.
pub proof fn law_block_without_type_is_refused(raw: JsonTree)
    requires
        type_of(raw) is None,
    ensures
        decoded(raw) == Err::<OutputView, BlockErrorView>(BlockErrorView::MissingType),
{
}

/// One block fails a whole answer only where it has no type, or a modeled type and not its
/// members: all blocks of other types can be read.
pub proof fn law_only_malformed_blocks_fail(raw: JsonTree)
    requires
        decoded(raw) is Err,
    ensures
        type_of(raw) is None || modeled(type_of(raw)->Some_0),
{
}

/// The kind of a block that was read is the type that it had on the wire.
pub proof fn law_kind_is_the_wire_type(raw: JsonTree, block: OutputContentBlock)
    requires
        decoded(raw) == Ok::<OutputView, BlockErrorView>(block@),
    ensures
        type_of(raw) == Some(block.wire_type()),
{
    lemma_names();
}

/// The kind of a modeled block is the type that it goes out with.
pub proof fn law_block_is_written_with_its_kind(block: OutputContentBlock)
    requires
        block !is Unknown,
    ensures
        type_of(encoded(block@)) == Some(block.wire_type()),
{
    law_known_block_is_read_back(block.known()->Some_0@);
    law_kind_is_the_wire_type(encoded(block@), block);
}

/// A modeled block that becomes a block is that modeled block again.
pub proof fn law_known_block_comes_back(known: KnownOutputContentBlock)
    ensures
        <OutputContentBlock as vstd::std_specs::convert::FromSpec<
            KnownOutputContentBlock,
        >>::from_spec(known).known() == Some(known),
        <OutputContentBlock as vstd::std_specs::convert::FromSpec<
            KnownOutputContentBlock,
        >>::from_spec(known)@ == OutputView::Known(known@),
{
}

/// The content of an answer is read exactly where each of its blocks is. No block is
/// dropped, and each keeps its place.
pub proof fn law_content_keeps_every_block(items: Seq<JsonTree>)
    ensures
        decoded_content(items) is Ok <==> forall|i: int|
            0 <= i < items.len() ==> #[trigger] decoded(items[i]) is Ok,
        decoded_content(items) is Ok ==> decoded_content(items)->Ok_0.len() == items.len(),
        decoded_content(items) is Ok ==> forall|i: int|
            0 <= i < items.len() ==> #[trigger] decoded(items[i]) == Ok::<
                OutputView,
                BlockErrorView,
            >(decoded_content(items)->Ok_0[i]),
    decreases items.len(),
{
    if items.len() > 0 {
        let front = items.drop_last();
        law_content_keeps_every_block(front);
        assert forall|i: int| 0 <= i < front.len() implies front[i] == items[i] by {}
        assert(decoded(items[items.len() - 1]) == decoded(items.last()));
        if forall|i: int| 0 <= i < items.len() ==> #[trigger] decoded(items[i]) is Ok {
            assert forall|i: int| 0 <= i < front.len() implies #[trigger] decoded(
                front[i],
            ) is Ok by {
                assert(decoded(items[i]) is Ok);
            }
        }
        if decoded_content(items) is Ok {
            assert forall|i: int| 0 <= i < items.len() implies #[trigger] decoded(items[i]) == Ok::<
                OutputView,
                BlockErrorView,
            >(decoded_content(items)->Ok_0[i]) by {
                if i < front.len() {
                    assert(decoded(front[i]) is Ok);
                }
            }
        }
    }
}

/// The error of an answer is that of its first block that cannot be read.
pub proof fn law_first_malformed_block_is_reported(items: Seq<JsonTree>, n: int)
    requires
        0 <= n < items.len(),
        forall|i: int| 0 <= i < n ==> #[trigger] decoded(items[i]) is Ok,
        decoded(items[n]) is Err,
    ensures
        decoded_content(items) == Err::<Seq<OutputView>, BlockErrorView>(
            decoded(items[n])->Err_0,
        ),
{
    let front = items.take(n);
    law_content_keeps_every_block(front);
    assert forall|i: int| 0 <= i < front.len() implies #[trigger] decoded(front[i]) is Ok by {
        assert(decoded(items[i]) is Ok);
    }
    assert(items.take(n + 1).drop_last() =~= front);
    lemma_error_stays(items, n + 1);
}

/// A block that was read holds what the object holds: each field is the member of that name.
/// A thought without a text is empty, a signature that is missing or null is none, and a block
/// of any other type is the object itself.
pub proof fn law_read_block_holds_the_members(raw: JsonTree, block: OutputContentBlock)
    requires
        decoded(raw) == outcome(Ok(block)),
    ensures
        match block {
            OutputContentBlock::Text { text } => {
                &&& raw.get("type"@) == Some(JsonTree::String("text"@))
                &&& raw.get("text"@) == Some(JsonTree::String(text@))
            },
            OutputContentBlock::ToolUse { id, name, input } => {
                &&& raw.get("type"@) == Some(JsonTree::String("tool_use"@))
                &&& raw.get("id"@) == Some(JsonTree::String(id@))
                &&& raw.get("name"@) == Some(JsonTree::String(name@))
                &&& raw.get("input"@) == Some(input@)
            },
            OutputContentBlock::Thinking { thinking, signature } => {
                &&& raw.get("type"@) == Some(JsonTree::String("thinking"@))
                &&& raw.get("thinking"@) == Some(JsonTree::String(thinking@)) || (raw.get(
                    "thinking"@,
                ) is None && thinking@.len() == 0)
                &&& match signature {
                    Some(signature) => raw.get("signature"@) == Some(
                        JsonTree::String(signature@),
                    ),
                    None => raw.get("signature"@) is None || raw.get("signature"@) == Some(
                        JsonTree::Null,
                    ),
                }
            },
            OutputContentBlock::RedactedThinking { data } => {
                &&& raw.get("type"@) == Some(JsonTree::String("redacted_thinking"@))
                &&& raw.get("data"@) == Some(data@)
            },
            OutputContentBlock::Unknown(kept) => {
                &&& kept@ == raw
                &&& raw.get("type"@) matches Some(JsonTree::String(kind)) && kind != "text"@ && kind
                    != "tool_use"@ && kind != "thinking"@ && kind != "redacted_thinking"@
            },
        },
{
    lemma_names();
}

/// A block can be read exactly where it has a type, and, if that type is modeled, the members
/// that the type wants.
pub proof fn law_block_is_read_where_its_members_are_there(raw: JsonTree)
    ensures
        decoded(raw) is Ok <==> match raw.get("type"@) {
            Some(JsonTree::String(kind)) => {
                &&& kind == "text"@ ==> raw.get("text"@) is Some && raw.get(
                    "text"@,
                )->Some_0 is String
                &&& kind == "tool_use"@ ==> {
                    &&& raw.get("id"@) is Some && raw.get("id"@)->Some_0 is String
                    &&& raw.get("name"@) is Some && raw.get("name"@)->Some_0 is String
                    &&& raw.get("input"@) is Some
                }
                &&& kind == "thinking"@ ==> {
                    &&& raw.get("thinking"@) is None || raw.get("thinking"@)->Some_0 is String
                    &&& raw.get("signature"@) is None || raw.get("signature"@)->Some_0 is String
                        || raw.get("signature"@)->Some_0 is Null
                }
                &&& kind == "redacted_thinking"@ ==> raw.get("data"@) is Some
            },
            _ => false,
        },
{
    lemma_names();
}

/// An error says what is wrong with the object: the type is missing, a member that the type
/// wants is not there, though those named before it are, or a member is no string.
pub proof fn law_block_error_names_what_is_wrong(raw: JsonTree, error: BlockError)
    requires
        decoded(raw) == outcome(Err(error)),
    ensures
        match error {
            BlockError::MissingType => raw.get("type"@) matches Some(value) ==> value !is String,
            BlockError::MissingField { field } => {
                &&& raw.get(field@) is None
                &&& raw.get("type"@) matches Some(JsonTree::String(kind)) && {
                    ||| kind == "text"@ && field@ == "text"@
                    ||| kind == "redacted_thinking"@ && field@ == "data"@
                    ||| kind == "tool_use"@ && field@ == "id"@
                    ||| kind == "tool_use"@ && field@ == "name"@ && raw.get("id"@) is Some
                    ||| kind == "tool_use"@ && field@ == "input"@ && raw.get("id"@) is Some
                        && raw.get("name"@) is Some
                }
            },
            BlockError::NotAString { field, found } => {
                &&& raw.get(field@) matches Some(value) && value !is String && found@
                    == fault::found(value)
                &&& raw.get("type"@) matches Some(JsonTree::String(kind)) && {
                    ||| kind == "text"@ && field@ == "text"@
                    ||| kind == "tool_use"@ && field@ == "id"@
                    ||| kind == "tool_use"@ && field@ == "name"@ && (raw.get("id"@) matches Some(
                        id,
                    ) ==> id is String)
                    ||| kind == "thinking"@ && field@ == "signature"@
                    ||| kind == "thinking"@ && field@ == "thinking"@ && (raw.get(
                        "signature"@,
                    ) matches Some(signature) ==> signature is String || signature is Null)
                }
            },
        },
{
    lemma_names();
}

/// A block goes out with each of its fields under that field's name, with its type, and with
/// nothing else; one of an unknown type goes out as it came.
pub proof fn law_written_block_holds_its_fields(block: OutputContentBlock, raw: Json, key: Seq<char>)
    requires
        raw@ == encoded(block@),
    ensures
        match block {
            OutputContentBlock::Text { text } => {
                &&& raw@.get("type"@) == Some(JsonTree::String("text"@))
                &&& raw@.get("text"@) == Some(JsonTree::String(text@))
                &&& raw@.get(key) is Some ==> key == "type"@ || key == "text"@
                &&& raw@ is Object && raw@->Object_0.len() == 2
            },
            OutputContentBlock::ToolUse { id, name, input } => {
                &&& raw@.get("type"@) == Some(JsonTree::String("tool_use"@))
                &&& raw@.get("id"@) == Some(JsonTree::String(id@))
                &&& raw@.get("name"@) == Some(JsonTree::String(name@))
                &&& raw@.get("input"@) == Some(input@)
                &&& raw@.get(key) is Some ==> key == "type"@ || key == "id"@ || key == "name"@
                    || key == "input"@
                &&& raw@ is Object && raw@->Object_0.len() == 4
            },
            OutputContentBlock::Thinking { thinking, signature } => {
                &&& raw@.get("type"@) == Some(JsonTree::String("thinking"@))
                &&& raw@.get("thinking"@) == Some(JsonTree::String(thinking@))
                &&& raw@.get("signature"@) == (match signature {
                    Some(signature) => Some(JsonTree::String(signature@)),
                    None => None,
                })
                &&& raw@.get(key) is Some ==> key == "type"@ || key == "thinking"@ || key
                    == "signature"@
                &&& raw@ is Object && raw@->Object_0.len() == (if signature is Some {
                    3int
                } else {
                    2
                })
            },
            OutputContentBlock::RedactedThinking { data } => {
                &&& raw@.get("type"@) == Some(JsonTree::String("redacted_thinking"@))
                &&& raw@.get("data"@) == Some(data@)
                &&& raw@.get(key) is Some ==> key == "type"@ || key == "data"@
                &&& raw@ is Object && raw@->Object_0.len() == 2
            },
            OutputContentBlock::Unknown(kept) => raw@ == kept@,
        },
{
    lemma_names();
    if block !is Unknown {
        let members = raw@->Object_0;
        reveal_with_fuel(json::member_of, 5);
        assert(members.skip(1).skip(1) =~= members.skip(2));
        if members.len() > 2 {
            assert(members.skip(1).skip(1).skip(1) =~= members.skip(3));
        }
        if members.len() > 3 {
            assert(members.skip(1).skip(1).skip(1).skip(1) =~= members.skip(4));
        }
    }
}

/// A modeled block goes out as the block that it becomes does.
pub proof fn law_written_known_block_holds_its_fields(
    known: KnownOutputContentBlock,
    block: OutputContentBlock,
    raw: Json,
)
    requires
        raw@ == encoded_known(known@),
        block.known() == Some(known),
    ensures
        raw@ == encoded(block@),
        match known {
            KnownOutputContentBlock::Text { text } => block == (OutputContentBlock::Text { text }),
            KnownOutputContentBlock::ToolUse { id, name, input } => block == (
            OutputContentBlock::ToolUse { id, name, input }),
            KnownOutputContentBlock::Thinking { thinking, signature } => block == (
            OutputContentBlock::Thinking { thinking, signature }),
            KnownOutputContentBlock::RedactedThinking { data } => block == (
            OutputContentBlock::RedactedThinking { data }),
        },
{
}

/// Each modeled block is the block of the same fields, and an unknown block is none of them.
pub proof fn law_known_block_has_the_same_fields(known: KnownOutputContentBlock, raw: Json)
    ensures
        ({
            let block = <OutputContentBlock as vstd::std_specs::convert::FromSpec<
                KnownOutputContentBlock,
            >>::from_spec(known);
            match known {
                KnownOutputContentBlock::Text { text } => block == (OutputContentBlock::Text {
                    text,
                }),
                KnownOutputContentBlock::ToolUse { id, name, input } => block == (
                OutputContentBlock::ToolUse { id, name, input }),
                KnownOutputContentBlock::Thinking { thinking, signature } => block == (
                OutputContentBlock::Thinking { thinking, signature }),
                KnownOutputContentBlock::RedactedThinking { data } => block == (
                OutputContentBlock::RedactedThinking { data }),
            }
        }),
        <OutputContentBlock as vstd::std_specs::convert::FromSpec<
            KnownOutputContentBlock,
        >>::obeys_from_spec(),
        OutputContentBlock::Unknown(raw).known() is None,
{
}

/// The kind of a block is its type on the wire: that of its variant, or the one that an
/// unknown block came with, empty where it came with none.
pub proof fn law_kind_of_each_block(block: OutputContentBlock)
    ensures
        match block {
            OutputContentBlock::Text { .. } => block.wire_type() == "text"@,
            OutputContentBlock::ToolUse { .. } => block.wire_type() == "tool_use"@,
            OutputContentBlock::Thinking { .. } => block.wire_type() == "thinking"@,
            OutputContentBlock::RedactedThinking { .. } => block.wire_type()
                == "redacted_thinking"@,
            OutputContentBlock::Unknown(raw) => match raw@.get("type"@) {
                Some(JsonTree::String(kind)) => block.wire_type() == kind,
                _ => block.wire_type() == Seq::<char>::empty(),
            },
        },
{
}

/// The content of an answer that was read has one block for each item, each read from the
/// item at its place.
pub proof fn law_read_content_holds_the_items(items: Seq<Json>, blocks: Seq<OutputContentBlock>)
    requires
        decoded_content(json::trees(items)) == Ok::<Seq<OutputView>, BlockErrorView>(
            block_views(blocks),
        ),
    ensures
        blocks.len() == items.len(),
        forall|i: int|
            0 <= i < blocks.len() ==> decoded(items[i]@) == outcome(Ok(#[trigger] blocks[i])),
{
    let all = json::trees(items);
    law_content_keeps_every_block(all);
    assert forall|i: int| 0 <= i < blocks.len() implies decoded(items[i]@) == outcome(
        Ok(#[trigger] blocks[i]),
    ) by {
        assert(decoded(all[i]) == Ok::<OutputView, BlockErrorView>(block_views(blocks)[i]));
    }
}

/// The words for an error name the field that is missing, or say what was found where a
/// string is wanted.
pub proof fn law_error_in_words(error: BlockError)
    ensures
        error_message(error@) == (match error {
            BlockError::MissingType => "content block is missing a string `type`"@,
            BlockError::MissingField { field } => "missing field `"@ + field@ + "`"@,
            BlockError::NotAString { found, .. } => "invalid type: "@ + fault::unexpected(found@)
                + ", expected a string"@,
        }),
{
}

/// A result is its block or its error.
pub proof fn law_result_is_a_block_or_an_error(block: OutputContentBlock, error: BlockError)
    ensures
        outcome(Ok(block)) == Ok::<OutputView, BlockErrorView>(block@),
        outcome(Err(error)) == Err::<OutputView, BlockErrorView>(error@),
        match error {
            BlockError::MissingType => error@ is MissingType,
            BlockError::MissingField { field } => error@ == (BlockErrorView::MissingField {
                field: field@,
            }),
            BlockError::NotAString { field, found } => error@ == (BlockErrorView::NotAString {
                field: field@,
                found: found@,
            }),
        },
{
}

} // verus!
