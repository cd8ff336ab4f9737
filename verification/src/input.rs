//! The blocks of the history, as they go to a provider.

use crate::json;
use crate::json::{has_no_rest, slot_of, tag_of, text_slot_of, Json, JsonTree};
use crate::output;
use crate::text;
use vstd::prelude::*;

verus! {

/// One block of a message of the history.
#[derive(Debug, Clone, PartialEq)]
pub enum InputContentBlock {
    Text { text: String },
    Thinking { thinking: String, signature: Option<String> },
    ToolUse { id: String, name: String, input: Json },
    ToolResult { tool_use_id: String, content: Vec<ToolResultContentBlock>, is_error: bool },
    /// A block of the assistant, replayed exactly as the server sent it.
    ///
    /// Blocks of server-side tools have nothing on this side that they could be rebuilt
    /// from, but they belong into the history: a paused turn resumes only if its content
    /// comes back unchanged. So the object goes out as it is, not inside another one.
    Passthrough(Json),
}

/// One block of the result of a tool.
#[derive(Debug, Clone, PartialEq)]
pub enum ToolResultContentBlock {
    Text { text: String },
    Json { value: Json },
}

/// A block of the result of a tool by what its fields hold.
pub enum ToolResultView {
    Text { text: Seq<char> },
    Json { value: JsonTree },
}

/// A block of the history by what its fields hold.
pub enum InputView {
    Text { text: Seq<char> },
    Thinking { thinking: Seq<char>, signature: Option<Seq<char>> },
    ToolUse { id: Seq<char>, name: Seq<char>, input: JsonTree },
    ToolResult { tool_use_id: Seq<char>, content: Seq<ToolResultView>, is_error: bool },
    Passthrough(JsonTree),
}

impl View for ToolResultContentBlock {
    type V = ToolResultView;

    open spec fn view(&self) -> ToolResultView {
        match *self {
            ToolResultContentBlock::Text { text } => ToolResultView::Text { text: text@ },
            ToolResultContentBlock::Json { value } => ToolResultView::Json { value: value@ },
        }
    }
}

/// The blocks of the result of a tool, each by what it holds.
pub open spec fn result_views(blocks: Seq<ToolResultContentBlock>) -> Seq<ToolResultView> {
    Seq::new(blocks.len(), |i: int| blocks[i]@)
}

impl View for InputContentBlock {
    type V = InputView;

    open spec fn view(&self) -> InputView {
        match *self {
            InputContentBlock::Text { text } => InputView::Text { text: text@ },
            InputContentBlock::Thinking { thinking, signature } => InputView::Thinking {
                thinking: thinking@,
                signature: text::optional_text(signature),
            },
            InputContentBlock::ToolUse { id, name, input } => InputView::ToolUse {
                id: id@,
                name: name@,
                input: input@,
            },
            InputContentBlock::ToolResult { tool_use_id, content, is_error } =>
                InputView::ToolResult {
                tool_use_id: tool_use_id@,
                content: result_views(content@),
                is_error,
            },
            InputContentBlock::Passthrough(raw) => InputView::Passthrough(raw@),
        }
    }
}

/// What a block of the result of a tool is on the wire.
pub open spec fn encoded_result(block: ToolResultView) -> JsonTree {
    match block {
        ToolResultView::Text { text } => JsonTree::Object(
            seq![("text"@, JsonTree::String(text)), ("type"@, JsonTree::String("text"@))],
        ),
        ToolResultView::Json { value } => JsonTree::Object(
            seq![("type"@, JsonTree::String("json"@)), ("value"@, value)],
        ),
    }
}

/// What the result of a tool is on the wire.
pub open spec fn encoded_results(blocks: Seq<ToolResultView>) -> Seq<JsonTree> {
    Seq::new(blocks.len(), |i: int| encoded_result(blocks[i]))
}

/// What a block of the history is on the wire, its members in the order of their keys. A
/// signature that is not there is left out, and so is `is_error` where nothing failed. A
/// replayed block goes out as it came.
pub open spec fn encoded_input(block: InputView) -> JsonTree {
    match block {
        InputView::Text { text } => JsonTree::Object(
            seq![("text"@, JsonTree::String(text)), ("type"@, JsonTree::String("text"@))],
        ),
        InputView::Thinking { thinking, signature: None } => JsonTree::Object(
            seq![
                ("thinking"@, JsonTree::String(thinking)),
                ("type"@, JsonTree::String("thinking"@)),
            ],
        ),
        InputView::Thinking { thinking, signature: Some(signature) } => JsonTree::Object(
            seq![
                ("signature"@, JsonTree::String(signature)),
                ("thinking"@, JsonTree::String(thinking)),
                ("type"@, JsonTree::String("thinking"@)),
            ],
        ),
        InputView::ToolUse { id, name, input } => JsonTree::Object(
            seq![
                ("id"@, JsonTree::String(id)),
                ("input"@, input),
                ("name"@, JsonTree::String(name)),
                ("type"@, JsonTree::String("tool_use"@)),
            ],
        ),
        InputView::ToolResult { tool_use_id, content, is_error: false } => JsonTree::Object(
            seq![
                ("content"@, JsonTree::Array(encoded_results(content))),
                ("tool_use_id"@, JsonTree::String(tool_use_id)),
                ("type"@, JsonTree::String("tool_result"@)),
            ],
        ),
        InputView::ToolResult { tool_use_id, content, is_error: true } => JsonTree::Object(
            seq![
                ("content"@, JsonTree::Array(encoded_results(content))),
                ("is_error"@, JsonTree::Bool(true)),
                ("tool_use_id"@, JsonTree::String(tool_use_id)),
                ("type"@, JsonTree::String("tool_result"@)),
            ],
        ),
        InputView::Passthrough(raw) => raw,
    }
}

impl ToolResultContentBlock {
    /// Writes a block of the result of a tool.
    pub fn serialize(&self) -> (raw: Json)
        ensures
            raw@ == encoded_result(self@),
    {
        let mut members: Vec<(String, Json)> = Vec::new();
        match self {
            ToolResultContentBlock::Text { text } => {
                members.push(("text".to_owned(), Json::String(text.clone())));
                members.push(("type".to_owned(), Json::String("text".to_owned())));
            },
            ToolResultContentBlock::Json { value } => {
                members.push(("type".to_owned(), Json::String("json".to_owned())));
                members.push(("value".to_owned(), value.clone()));
            },
        }
        assert(json::member_trees(members@) =~= encoded_result(self@)->Object_0);
        Json::object(members)
    }
}

/// Writes the result of a tool.
fn results_json(blocks: &Vec<ToolResultContentBlock>) -> (raw: Json)
    ensures
        raw@ == JsonTree::Array(encoded_results(result_views(blocks@))),
{
    let mut items: Vec<Json> = Vec::new();
    let mut i: usize = 0;
    while i < blocks.len()
        invariant
            i <= blocks@.len(),
            items@.len() == i,
            forall|j: int| 0 <= j < i ==> (#[trigger] items@[j])@ == encoded_result(blocks@[j]@),
        decreases blocks@.len() - i,
    {
        items.push(blocks[i].serialize());
        i = i + 1;
    }
    assert(json::trees(items@) =~= encoded_results(result_views(blocks@)));
    Json::array(items)
}

impl InputContentBlock {
    /// Writes a block of the history: a replayed one as it came.
    pub fn serialize(&self) -> (raw: Json)
        ensures
            raw@ == encoded_input(self@),
    {
        let mut members: Vec<(String, Json)> = Vec::new();
        match self {
            InputContentBlock::Text { text } => {
                members.push(("text".to_owned(), Json::String(text.clone())));
                members.push(("type".to_owned(), Json::String("text".to_owned())));
            },
            InputContentBlock::Thinking { thinking, signature } => {
                if let Some(signature) = signature {
                    members.push(("signature".to_owned(), Json::String(signature.clone())));
                }
                members.push(("thinking".to_owned(), Json::String(thinking.clone())));
                members.push(("type".to_owned(), Json::String("thinking".to_owned())));
            },
            InputContentBlock::ToolUse { id, name, input } => {
                members.push(("id".to_owned(), Json::String(id.clone())));
                members.push(("input".to_owned(), input.clone()));
                members.push(("name".to_owned(), Json::String(name.clone())));
                members.push(("type".to_owned(), Json::String("tool_use".to_owned())));
            },
            InputContentBlock::ToolResult { tool_use_id, content, is_error } => {
                members.push(("content".to_owned(), results_json(content)));
                if *is_error {
                    members.push(("is_error".to_owned(), Json::Bool(true)));
                }
                members.push(("tool_use_id".to_owned(), Json::String(tool_use_id.clone())));
                members.push(("type".to_owned(), Json::String("tool_result".to_owned())));
            },
            InputContentBlock::Passthrough(raw) => {
                return raw.clone();
            },
        }
        assert(json::member_trees(members@) =~= encoded_input(self@)->Object_0);
        Json::object(members)
    }
}

/// The types of the blocks of the result of a tool.
pub open spec fn result_types() -> Seq<Seq<char>> {
    seq!["text"@, "json"@]
}

/// The types of the blocks of the history that are modeled.
pub open spec fn input_types() -> Seq<Seq<char>> {
    seq!["text"@, "thinking"@, "tool_use"@, "tool_result"@]
}

/// The block of the result of a tool that a JSON value is, if it is one.
pub open spec fn decoded_result(raw: JsonTree) -> Option<ToolResultView> {
    match json::tag(raw, result_types()) {
        Some(kind) if json::no_rest(raw, 1) => if kind == "text"@ {
            match json::text_slot(raw, "text"@, 1) {
                Some(text) => Some(ToolResultView::Text { text }),
                None => None,
            }
        } else {
            match json::slot(raw, "value"@, 1) {
                Some(value) => Some(ToolResultView::Json { value }),
                None => None,
            }
        },
        _ => None,
    }
}

/// The result of a tool that an array is, if each of its items is a block.
pub open spec fn decoded_results(items: Seq<JsonTree>) -> Option<Seq<ToolResultView>> {
    if forall|i: int| 0 <= i < items.len() ==> #[trigger] decoded_result(items[i]) is Some {
        Some(Seq::new(items.len(), |i: int| decoded_result(items[i])->Some_0))
    } else {
        None
    }
}

/// A text block.
pub open spec fn input_text(raw: JsonTree) -> Option<InputView> {
    match json::text_slot(raw, "text"@, 1) {
        Some(text) if json::no_rest(raw, 1) => Some(InputView::Text { text }),
        _ => None,
    }
}

/// A thought. A signature may be missing or null.
pub open spec fn input_thinking(raw: JsonTree) -> Option<InputView> {
    match json::text_slot(raw, "thinking"@, 1) {
        Some(thinking) if json::no_rest(raw, 2) => match json::slot(raw, "signature"@, 2) {
            None => Some(InputView::Thinking { thinking, signature: None }),
            Some(JsonTree::Null) => Some(InputView::Thinking { thinking, signature: None }),
            Some(JsonTree::String(signature)) => Some(
                InputView::Thinking { thinking, signature: Some(signature) },
            ),
            _ => None,
        },
        _ => None,
    }
}

/// The use of a tool.
pub open spec fn input_tool_use(raw: JsonTree) -> Option<InputView> {
    match (json::text_slot(raw, "id"@, 1), json::text_slot(raw, "name"@, 2), json::slot(raw, "input"@, 3)) {
        (Some(id), Some(name), Some(input)) if json::no_rest(raw, 3) => Some(
            InputView::ToolUse { id, name, input },
        ),
        _ => None,
    }
}

/// The result of a tool. Where nothing is said, nothing failed.
pub open spec fn input_tool_result(raw: JsonTree) -> Option<InputView> {
    match (json::text_slot(raw, "tool_use_id"@, 1), json::slot(raw, "content"@, 2), json::slot(raw, "is_error"@, 3)) {
        (Some(tool_use_id), Some(JsonTree::Array(items)), failed) if json::no_rest(raw, 3)
            && decoded_results(items) is Some => match failed {
            None => Some(
                InputView::ToolResult {
                    tool_use_id,
                    content: decoded_results(items)->Some_0,
                    is_error: false,
                },
            ),
            Some(JsonTree::Bool(is_error)) => Some(
                InputView::ToolResult {
                    tool_use_id,
                    content: decoded_results(items)->Some_0,
                    is_error,
                },
            ),
            _ => None,
        },
        _ => None,
    }
}

/// The block of a modeled type that a JSON value is, if it is one.
pub open spec fn tagged_input(raw: JsonTree) -> Option<InputView> {
    match json::tag(raw, input_types()) {
        Some(kind) => if kind == "text"@ {
            input_text(raw)
        } else if kind == "thinking"@ {
            input_thinking(raw)
        } else if kind == "tool_use"@ {
            input_tool_use(raw)
        } else {
            input_tool_result(raw)
        },
        None => None,
    }
}

/// The block of the history that a JSON value is. What is no block of a modeled type is
/// replayed as it is.
pub open spec fn decoded_input(raw: JsonTree) -> InputView {
    match tagged_input(raw) {
        Some(block) => block,
        None => InputView::Passthrough(raw),
    }
}

impl ToolResultContentBlock {
    /// Reads a block of the result of a tool, inside the block of the history that holds it.
    fn read(raw: &Json) -> (block: Option<ToolResultContentBlock>)
        ensures
            match block {
                Some(b) => decoded_result(raw@) == Some(b@),
                None => decoded_result(raw@) is None,
            },
    {
        let names: Vec<String> = vec!["text".to_owned(), "json".to_owned()];
        proof {
            lemma_input_names();
            assert(json::name_views(names@) =~= result_types());
        }
        let kind: usize = match tag_of(raw, &names) {
            Some(kind) => kind,
            None => return None,
        };
        if !has_no_rest(raw, 1) {
            return None;
        }
        if kind == 0 {
            match text_slot_of(raw, "text", 1) {
                Some(text) => Some(ToolResultContentBlock::Text { text }),
                None => None,
            }
        } else {
            match slot_of(raw, "value", 1) {
                Some(value) => Some(ToolResultContentBlock::Json { value: value.clone() }),
                None => None,
            }
        }
    }
}

/// Reads the result of a tool.
fn results_of(items: &Vec<Json>) -> (blocks: Option<Vec<ToolResultContentBlock>>)
    ensures
        match blocks {
            Some(b) => decoded_results(json::trees(items@)) == Some(result_views(b@)),
            None => decoded_results(json::trees(items@)) is None,
        },
{
    let ghost all = json::trees(items@);
    let mut blocks: Vec<ToolResultContentBlock> = Vec::new();
    let mut i: usize = 0;
    while i < items.len()
        invariant
            i <= items@.len(),
            all == json::trees(items@),
            blocks@.len() == i,
            forall|j: int| 0 <= j < i ==> #[trigger] decoded_result(all[j]) == Some(blocks@[j]@),
        decreases items@.len() - i,
    {
        match ToolResultContentBlock::read(&items[i]) {
            Some(block) => {
                blocks.push(block);
            },
            None => {
                proof {
                    assert(decoded_result(all[i as int]) is None);
                }
                return None;
            },
        }
        i = i + 1;
    }
    proof {
        assert(decoded_results(all) is Some);
        assert(decoded_results(all)->Some_0 =~= result_views(blocks@));
    }
    Some(blocks)
}

impl InputContentBlock {
    /// A text block.
    fn text(raw: &Json) -> (block: Option<InputContentBlock>)
        ensures
            view_of(block) == input_text(raw@),
    {
        match text_slot_of(raw, "text", 1) {
            Some(text) => if has_no_rest(raw, 1) {
                Some(InputContentBlock::Text { text })
            } else {
                None
            },
            None => None,
        }
    }

    /// A thought.
    fn thinking(raw: &Json) -> (block: Option<InputContentBlock>)
        ensures
            view_of(block) == input_thinking(raw@),
    {
        let thinking = match text_slot_of(raw, "thinking", 1) {
            Some(thinking) => thinking,
            None => return None,
        };
        if !has_no_rest(raw, 2) {
            return None;
        }
        match slot_of(raw, "signature", 2) {
            None => Some(InputContentBlock::Thinking { thinking, signature: None }),
            Some(Json::Null) => Some(InputContentBlock::Thinking { thinking, signature: None }),
            Some(Json::String(signature)) => Some(
                InputContentBlock::Thinking { thinking, signature: Some(signature.clone()) },
            ),
            Some(_) => None,
        }
    }

    /// The use of a tool.
    fn tool_use(raw: &Json) -> (block: Option<InputContentBlock>)
        ensures
            view_of(block) == input_tool_use(raw@),
    {
        let id = match text_slot_of(raw, "id", 1) {
            Some(id) => id,
            None => return None,
        };
        let name = match text_slot_of(raw, "name", 2) {
            Some(name) => name,
            None => return None,
        };
        match slot_of(raw, "input", 3) {
            Some(input) => if has_no_rest(raw, 3) {
                Some(InputContentBlock::ToolUse { id, name, input: input.clone() })
            } else {
                None
            },
            None => None,
        }
    }

    /// The result of a tool.
    fn tool_result(raw: &Json) -> (block: Option<InputContentBlock>)
        ensures
            view_of(block) == input_tool_result(raw@),
    {
        let tool_use_id = match text_slot_of(raw, "tool_use_id", 1) {
            Some(id) => id,
            None => return None,
        };
        if !has_no_rest(raw, 3) {
            return None;
        }
        let content = match slot_of(raw, "content", 2) {
            Some(Json::Array(items)) => {
                proof {
                    json::lemma_array_tree(*items);
                }
                match results_of(items) {
                    Some(content) => content,
                    None => return None,
                }
            },
            _ => return None,
        };
        match slot_of(raw, "is_error", 3) {
            None => Some(InputContentBlock::ToolResult { tool_use_id, content, is_error: false }),
            Some(Json::Bool(is_error)) => Some(
                InputContentBlock::ToolResult { tool_use_id, content, is_error: *is_error },
            ),
            Some(_) => None,
        }
    }

    /// Reads a block of the history. What is no block of a modeled type is kept, to be
    /// replayed as it is.
    pub fn deserialize(raw: Json) -> (block: InputContentBlock)
        ensures
            block@ == decoded_input(raw@),
    {
        let names: Vec<String> = vec![
            "text".to_owned(),
            "thinking".to_owned(),
            "tool_use".to_owned(),
            "tool_result".to_owned(),
        ];
        proof {
            lemma_input_names();
            assert(json::name_views(names@) =~= input_types());
        }
        let tagged = match tag_of(&raw, &names) {
            Some(0) => InputContentBlock::text(&raw),
            Some(1) => InputContentBlock::thinking(&raw),
            Some(2) => InputContentBlock::tool_use(&raw),
            Some(_) => InputContentBlock::tool_result(&raw),
            None => None,
        };
        match tagged {
            Some(block) => block,
            None => InputContentBlock::Passthrough(raw),
        }
    }

    /// Reads a block of the history that `serde_json` parsed.
    pub fn from_value(value: serde_json::Value) -> (block: InputContentBlock)
        ensures
            block@ == decoded_input(json::contents(value)),
    {
        InputContentBlock::deserialize(Json::from_value(value))
    }
}

/// A block that may be none, by what it holds.
pub open spec fn view_of(block: Option<InputContentBlock>) -> Option<InputView> {
    match block {
        Some(b) => Some(b@),
        None => None,
    }
}

/// The names of members and types are different words.
proof fn lemma_input_names()
    ensures
        "text"@ != "json"@,
        "text"@ != "thinking"@,
        "text"@ != "tool_use"@,
        "text"@ != "tool_result"@,
        "thinking"@ != "tool_use"@,
        "thinking"@ != "tool_result"@,
        "tool_use"@ != "tool_result"@,
        "type"@ != "text"@,
        "type"@ != "value"@,
        "type"@ != "thinking"@,
        "type"@ != "signature"@,
        "type"@ != "id"@,
        "type"@ != "input"@,
        "type"@ != "name"@,
        "type"@ != "content"@,
        "type"@ != "is_error"@,
        "type"@ != "tool_use_id"@,
        "id"@ != "input"@,
        "id"@ != "name"@,
        "input"@ != "name"@,
        "thinking"@ != "signature"@,
        "content"@ != "is_error"@,
        "content"@ != "tool_use_id"@,
        "is_error"@ != "tool_use_id"@,
{
    reveal_strlit("text");
    reveal_strlit("json");
    reveal_strlit("thinking");
    reveal_strlit("tool_use");
    reveal_strlit("tool_result");
    reveal_strlit("type");
    reveal_strlit("value");
    reveal_strlit("signature");
    reveal_strlit("id");
    reveal_strlit("input");
    reveal_strlit("name");
    reveal_strlit("content");
    reveal_strlit("is_error");
    reveal_strlit("tool_use_id");
    assert("text"@[0] != "json"@[0]);
    assert("thinking"@[1] != "tool_use"@[1]);
    assert("type"@[1] != "text"@[1]);
    assert("type"@[0] != "name"@[0]);
    assert("id"@.len() != "input"@.len());
    assert("id"@.len() != "name"@.len());
    assert("content"@.len() != "is_error"@.len());
    assert("tool_use"@.len() != "tool_result"@.len());
}

/// What was written of a block of a modeled type is read back as that block.
pub proof fn law_input_block_is_read_back(block: InputView)
    requires
        block !is Passthrough,
    ensures
        decoded_input(encoded_input(block)) == block,
{
    lemma_input_names();
    let raw = encoded_input(block);
    let members = raw->Object_0;
    reveal_with_fuel(json::member_of, 5);
    assert(members.skip(1).skip(1) =~= members.skip(2));
    if members.len() > 2 {
        assert(members.skip(1).skip(1).skip(1) =~= members.skip(3));
    }
    let types = input_types();
    assert(types[0] == "text"@ && types[1] == "thinking"@ && types[2] == "tool_use"@ && types[3]
        == "tool_result"@);
    assert(json::tag(raw, types) is Some);
    if let InputView::ToolResult { content, .. } = block {
        let items = encoded_results(content);
        assert forall|i: int| 0 <= i < items.len() implies #[trigger] decoded_result(items[i])
            == Some(content[i]) by {
            law_result_block_is_read_back(content[i]);
        }
        assert(decoded_results(items)->Some_0 =~= content);
    }
}

/// What was written of a block of the result of a tool is read back as that block.
pub proof fn law_result_block_is_read_back(block: ToolResultView)
    ensures
        decoded_result(encoded_result(block)) == Some(block),
{
    lemma_input_names();
    let raw = encoded_result(block);
    let members = raw->Object_0;
    reveal_with_fuel(json::member_of, 3);
    let types = result_types();
    assert(types[0] == "text"@ && types[1] == "json"@);
    assert(json::tag(raw, types) is Some);
}

/// A block that the server sent and that is not modeled is kept as it came, and goes out in
/// the history as it came, not inside another object.
pub proof fn law_server_block_survives_the_history(raw: JsonTree)
    requires
        output::type_of(raw) is Some,
        !output::modeled(output::type_of(raw)->Some_0),
    ensures
        output::decoded(raw) == Ok::<output::OutputView, output::BlockErrorView>(
            output::OutputView::Unknown(raw),
        ),
        encoded_input(InputView::Passthrough(raw)) == raw,
{
}

/// A history that is read and written again still holds each replayed block as it came: every
/// value that is no block of a modeled type, malformed ones among them.
pub proof fn law_replayed_block_is_read_back(raw: JsonTree)
    requires
        tagged_input(raw) is None,
    ensures
        decoded_input(raw) == InputView::Passthrough(raw),
        encoded_input(decoded_input(raw)) == raw,
{
}

/// A block of the history goes out with each of its fields under that field's name, with its
/// type, and with nothing else. A signature that is not there and a result that is no error
/// are left out, and the blocks of a result keep their places. A replayed block goes out as
/// it came.
pub proof fn law_written_block_holds_its_fields(block: InputContentBlock, raw: Json, key: Seq<char>)
    requires
        raw@ == encoded_input(block@),
    ensures
        match block {
            InputContentBlock::Text { text } => {
                &&& raw@.get("type"@) == Some(JsonTree::String("text"@))
                &&& raw@.get("text"@) == Some(JsonTree::String(text@))
                &&& raw@.get(key) is Some ==> key == "type"@ || key == "text"@
                &&& raw@ is Object && raw@->Object_0.len() == 2
            },
            InputContentBlock::Thinking { thinking, signature } => {
                &&& raw@.get("type"@) == Some(JsonTree::String("thinking"@))
                &&& raw@.get("thinking"@) == Some(JsonTree::String(thinking@))
                &&& raw@.get("signature"@) == (match signature {
                    Some(signature) => Some(JsonTree::String(signature@)),
                    None => None,
                })
                &&& raw@.get(key) is Some ==> key == "type"@ || key == "thinking"@ || key
                    == "signature"@
                &&& raw@ is Object && raw@->Object_0.len() == (if signature is Some {
                    3int
                } else {
                    2
                })
            },
            InputContentBlock::ToolUse { id, name, input } => {
                &&& raw@.get("type"@) == Some(JsonTree::String("tool_use"@))
                &&& raw@.get("id"@) == Some(JsonTree::String(id@))
                &&& raw@.get("name"@) == Some(JsonTree::String(name@))
                &&& raw@.get("input"@) == Some(input@)
                &&& raw@.get(key) is Some ==> key == "type"@ || key == "id"@ || key == "name"@
                    || key == "input"@
                &&& raw@ is Object && raw@->Object_0.len() == 4
            },
            InputContentBlock::ToolResult { tool_use_id, content, is_error } => {
                &&& raw@.get("type"@) == Some(JsonTree::String("tool_result"@))
                &&& raw@.get("tool_use_id"@) == Some(JsonTree::String(tool_use_id@))
                &&& raw@.get("content"@) is Some && raw@.get("content"@)->Some_0 is Array
                &&& raw@.get("content"@)->Some_0->Array_0.len() == content@.len()
                &&& forall|i: int|
                    0 <= i < content@.len() ==> raw@.get("content"@)->Some_0->Array_0[i]
                        == encoded_result((#[trigger] content@[i])@)
                &&& raw@.get("is_error"@) == (if is_error {
                    Some(JsonTree::Bool(true))
                } else {
                    None
                })
                &&& raw@.get(key) is Some ==> key == "type"@ || key == "tool_use_id"@ || key
                    == "content"@ || key == "is_error"@
                &&& raw@ is Object && raw@->Object_0.len() == (if is_error {
                    4int
                } else {
                    3
                })
            },
            InputContentBlock::Passthrough(kept) => raw@ == kept@,
        },
{
    lemma_input_names();
    if block !is Passthrough {
        let members = raw@->Object_0;
        reveal_with_fuel(json::member_of, 5);
        assert(members.skip(1).skip(1) =~= members.skip(2));
        if members.len() > 2 {
            assert(members.skip(1).skip(1).skip(1) =~= members.skip(3));
        }
        if members.len() > 3 {
            assert(members.skip(1).skip(1).skip(1).skip(1) =~= members.skip(4));
        }
    }
}

/// A block of the result of a tool goes out with its field under that field's name, with its
/// type, and with nothing else.
pub proof fn law_written_result_block_holds_its_field(
    block: ToolResultContentBlock,
    raw: Json,
    key: Seq<char>,
)
    requires
        raw@ == encoded_result(block@),
    ensures
        raw@ is Object && raw@->Object_0.len() == 2,
        match block {
            ToolResultContentBlock::Text { text } => {
                &&& raw@.get("type"@) == Some(JsonTree::String("text"@))
                &&& raw@.get("text"@) == Some(JsonTree::String(text@))
                &&& raw@.get(key) is Some ==> key == "type"@ || key == "text"@
            },
            ToolResultContentBlock::Json { value } => {
                &&& raw@.get("type"@) == Some(JsonTree::String("json"@))
                &&& raw@.get("value"@) == Some(value@)
                &&& raw@.get(key) is Some ==> key == "type"@ || key == "value"@
            },
        },
{
    lemma_input_names();
    let members = raw@->Object_0;
    reveal_with_fuel(json::member_of, 3);
    assert(members.skip(1).skip(1) =~= members.skip(2));
}

/// A block of the history that was read holds what the record holds: each field is the one of
/// that name, or at its place, and a replayed block is the value itself.
pub proof fn law_read_block_holds_the_fields(raw: JsonTree, block: InputContentBlock)
    requires
        block@ == decoded_input(raw),
    ensures
        match block {
            InputContentBlock::Text { text } => {
                &&& json::is_of_type(raw, "text"@, 0)
                &&& json::slot(raw, "text"@, 1) == Some(JsonTree::String(text@))
            },
            InputContentBlock::Thinking { thinking, signature } => {
                &&& json::is_of_type(raw, "thinking"@, 1)
                &&& json::slot(raw, "thinking"@, 1) == Some(JsonTree::String(thinking@))
                &&& match signature {
                    Some(signature) => json::slot(raw, "signature"@, 2) == Some(
                        JsonTree::String(signature@),
                    ),
                    None => json::slot(raw, "signature"@, 2) is None || json::slot(
                        raw,
                        "signature"@,
                        2,
                    ) == Some(JsonTree::Null),
                }
            },
            InputContentBlock::ToolUse { id, name, input } => {
                &&& json::is_of_type(raw, "tool_use"@, 2)
                &&& json::slot(raw, "id"@, 1) == Some(JsonTree::String(id@))
                &&& json::slot(raw, "name"@, 2) == Some(JsonTree::String(name@))
                &&& json::slot(raw, "input"@, 3) == Some(input@)
            },
            InputContentBlock::ToolResult { tool_use_id, content, is_error } => {
                &&& json::is_of_type(raw, "tool_result"@, 3)
                &&& json::slot(raw, "tool_use_id"@, 1) == Some(JsonTree::String(tool_use_id@))
                &&& json::slot(raw, "content"@, 2) is Some && json::slot(
                    raw,
                    "content"@,
                    2,
                )->Some_0 is Array
                &&& json::slot(raw, "content"@, 2)->Some_0->Array_0.len() == content@.len()
                &&& forall|i: int|
                    0 <= i < content@.len() ==> decoded_result(
                        json::slot(raw, "content"@, 2)->Some_0->Array_0[i],
                    ) == Some((#[trigger] content@[i])@)
                &&& json::slot(raw, "is_error"@, 3) == Some(JsonTree::Bool(is_error)) || (
                json::slot(raw, "is_error"@, 3) is None && !is_error)
            },
            InputContentBlock::Passthrough(kept) => kept@ == raw,
        },
{
    lemma_input_names();
    let types = input_types();
    assert(types[0] == "text"@ && types[1] == "thinking"@ && types[2] == "tool_use"@ && types[3]
        == "tool_result"@);
    if let InputContentBlock::ToolResult { content, .. } = block {
        let items = json::slot(raw, "content"@, 2)->Some_0->Array_0;
        assert(decoded_results(items) == Some(result_views(content@)));
        assert(decoded_results(items)->Some_0.len() == items.len());
        assert(result_views(content@).len() == items.len());
        assert forall|i: int| 0 <= i < content@.len() implies decoded_result(items[i]) == Some(
            (#[trigger] content@[i])@,
        ) by {
            assert(result_views(content@)[i] == content@[i]@);
            assert(decoded_result(items[i]) is Some);
        }
    }
}

/// Which block of the history a value is: one of a modeled type exactly where it has that type
/// and the fields that the type wants, and a replayed one in every other case.
pub proof fn law_modeled_blocks_are_recognised(raw: JsonTree)
    ensures
        decoded_input(raw) is Text <==> {
            &&& json::is_of_type(raw, "text"@, 0)
            &&& json::has_text(raw, "text"@, 1)
            &&& json::has_at_most(raw, 1)
        },
        decoded_input(raw) is Thinking <==> {
            &&& json::is_of_type(raw, "thinking"@, 1)
            &&& json::has_text(raw, "thinking"@, 1)
            &&& json::has_text(raw, "signature"@, 2) || json::slot(raw, "signature"@, 2) is None
                || json::slot(raw, "signature"@, 2) == Some(JsonTree::Null)
            &&& json::has_at_most(raw, 2)
        },
        decoded_input(raw) is ToolUse <==> {
            &&& json::is_of_type(raw, "tool_use"@, 2)
            &&& json::has_text(raw, "id"@, 1)
            &&& json::has_text(raw, "name"@, 2)
            &&& json::slot(raw, "input"@, 3) is Some
            &&& json::has_at_most(raw, 3)
        },
        decoded_input(raw) is ToolResult <==> {
            &&& json::is_of_type(raw, "tool_result"@, 3)
            &&& json::has_text(raw, "tool_use_id"@, 1)
            &&& json::slot(raw, "content"@, 2) is Some
            &&& json::slot(raw, "content"@, 2)->Some_0 is Array
            &&& forall|i: int|
                0 <= i < json::slot(raw, "content"@, 2)->Some_0->Array_0.len()
                    ==> #[trigger] decoded_result(
                    json::slot(raw, "content"@, 2)->Some_0->Array_0[i],
                ) is Some
            &&& json::slot(raw, "is_error"@, 3) is None || json::slot(
                raw,
                "is_error"@,
                3,
            )->Some_0 is Bool
            &&& json::has_at_most(raw, 3)
        },
{
    lemma_input_names();
    let types = input_types();
    assert(types[0] == "text"@ && types[1] == "thinking"@ && types[2] == "tool_use"@ && types[3]
        == "tool_result"@);
}

/// Which block of the result of a tool a value is, and what it holds.
pub proof fn law_read_result_block_holds_the_field(raw: JsonTree, block: ToolResultContentBlock)
    ensures
        decoded_result(raw) == Some(block@) ==> match block {
            ToolResultContentBlock::Text { text } => {
                &&& json::is_of_type(raw, "text"@, 0)
                &&& json::slot(raw, "text"@, 1) == Some(JsonTree::String(text@))
            },
            ToolResultContentBlock::Json { value } => {
                &&& json::is_of_type(raw, "json"@, 1)
                &&& json::slot(raw, "value"@, 1) == Some(value@)
            },
        },
        decoded_result(raw) is Some <==> {
            &&& json::has_at_most(raw, 1)
            &&& {
                ||| json::is_of_type(raw, "text"@, 0) && json::has_text(raw, "text"@, 1)
                ||| json::is_of_type(raw, "json"@, 1) && json::slot(raw, "value"@, 1) is Some
            }
        },
{
    lemma_input_names();
    let types = result_types();
    assert(types[0] == "text"@ && types[1] == "json"@);
}

} // verus!
