//! Requests to a model provider.

use crate::input;
use crate::input::{InputContentBlock, ToolResultContentBlock};
use crate::json;
use crate::json::{Json, JsonNumber, JsonTree};
use crate::text;
use std::collections::BTreeMap;
use vstd::prelude::*;

verus! {

/// A number with a fraction, by the digits with which it goes on the wire, or one that is
/// infinite or not a number.
#[derive(Debug, Clone, PartialEq, Eq)]
pub enum Float64 {
    Finite { digits: String },
    NotFinite,
}

/// A number with a fraction, as a value.
pub enum FloatView {
    Finite { digits: Seq<char> },
    NotFinite,
}

impl View for Float64 {
    type V = FloatView;

    open spec fn view(&self) -> FloatView {
        match *self {
            Float64::Finite { digits } => FloatView::Finite { digits: digits@ },
            Float64::NotFinite => FloatView::NotFinite,
        }
    }
}

/// A number that may be left out, as a value.
pub open spec fn optional_float(x: Option<Float64>) -> Option<FloatView> {
    match x {
        Some(x) => Some(x@),
        None => None,
    }
}

/// A request for one message.
#[derive(Debug, Clone, PartialEq)]
pub struct MessageRequest {
    pub model: String,
    pub max_tokens: u32,
    pub messages: Vec<InputMessage>,
    pub system: Option<String>,
    pub tools: Option<Vec<ToolDefinition>>,
    pub tool_choice: Option<ToolChoice>,
    pub stream: bool,
    /// Tuning parameters of OpenAI-compatible providers. What is `None` is left out.
    pub temperature: Option<Float64>,
    pub top_p: Option<Float64>,
    pub frequency_penalty: Option<Float64>,
    pub presence_penalty: Option<Float64>,
    pub stop: Option<Vec<String>>,
    /// How hard a reasoning model should think: `"low"`, `"medium"` or `"high"`.
    /// Providers that do not know it ignore it.
    pub reasoning_effort: Option<String>,
    /// Further members of the request body, for what a provider offers beyond the typed
    /// fields. They cannot replace a core member of the protocol.
    pub extra_body: BTreeMap<String, Json>,
}

impl Default for MessageRequest {
    fn default() -> (request: MessageRequest)
        ensures
            request.model@.len() == 0,
            request.max_tokens == 0,
            request.messages@.len() == 0,
            request.system is None,
            request.tools is None,
            request.tool_choice is None,
            !request.stream,
            request.temperature is None,
            request.top_p is None,
            request.frequency_penalty is None,
            request.presence_penalty is None,
            request.stop is None,
            request.reasoning_effort is None,
            request.extra_body@ == Map::<String, Json>::empty(),
    {
        MessageRequest {
            model: String::new(),
            max_tokens: 0,
            messages: Vec::new(),
            system: None,
            tools: None,
            tool_choice: None,
            stream: false,
            temperature: None,
            top_p: None,
            frequency_penalty: None,
            presence_penalty: None,
            stop: None,
            reasoning_effort: None,
            extra_body: BTreeMap::new(),
        }
    }
}

impl MessageRequest {
    /// The same request, to be answered as a stream.
    #[must_use]
    pub fn with_streaming(self) -> (request: MessageRequest)
        ensures
            request == (MessageRequest { stream: true, ..self }),
    {
        MessageRequest { stream: true, ..self }
    }
}

/// One message of the history.
#[derive(Debug, Clone, PartialEq)]
pub struct InputMessage {
    pub role: String,
    pub content: Vec<InputContentBlock>,
}

impl InputMessage {
    /// A text by the user.
    #[must_use]
    pub fn user_text(text: impl Into<String>) -> (message: InputMessage)
        ensures
            message.role@ == "user"@,
            message.content@.len() == 1,
            message.content@[0] matches InputContentBlock::Text { text: t } && call_ensures(
                Into::<String>::into,
                (text,),
                t,
            ),
    {
        InputMessage {
            role: String::from("user"),
            content: vec![InputContentBlock::Text { text: text.into() }],
        }
    }

    /// The result of a tool, handed in by the user.
    #[must_use]
    pub fn user_tool_result(
        tool_use_id: impl Into<String>,
        content: impl Into<String>,
        is_error: bool,
    ) -> (message: InputMessage)
        ensures
            message.role@ == "user"@,
            message.content@.len() == 1,
            message.content@[0] matches InputContentBlock::ToolResult {
                tool_use_id: id,
                content: blocks,
                is_error: failed,
            } && {
                &&& call_ensures(Into::<String>::into, (tool_use_id,), id)
                &&& blocks@.len() == 1
                &&& blocks@[0] matches ToolResultContentBlock::Text { text: t } && call_ensures(
                    Into::<String>::into,
                    (content,),
                    t,
                )
                &&& failed == is_error
            },
    {
        InputMessage {
            role: String::from("user"),
            content: vec![
                InputContentBlock::ToolResult {
                    tool_use_id: tool_use_id.into(),
                    content: vec![ToolResultContentBlock::Text { text: content.into() }],
                    is_error,
                },
            ],
        }
    }
}

/// A tool that the model may use.
#[derive(Debug, Clone, PartialEq, Eq)]
pub struct ToolDefinition {
    pub name: String,
    pub description: Option<String>,
    pub input_schema: Json,
}

/// Which tool the model must use, if any.
#[derive(Debug, Clone, PartialEq, Eq)]
pub enum ToolChoice {
    Auto,
    Any,
    Tool { name: String },
}

/// A request by what its fields hold. The further members of its body stand in the order of
/// their keys.
pub struct RequestView {
    pub model: Seq<char>,
    pub max_tokens: u32,
    pub messages: Seq<MessageView>,
    pub system: Option<Seq<char>>,
    pub tools: Option<Seq<ToolView>>,
    pub tool_choice: Option<ChoiceView>,
    pub stream: bool,
    pub temperature: Option<FloatView>,
    pub top_p: Option<FloatView>,
    pub frequency_penalty: Option<FloatView>,
    pub presence_penalty: Option<FloatView>,
    pub stop: Option<Seq<Seq<char>>>,
    pub reasoning_effort: Option<Seq<char>>,
    pub extra_body: Seq<(Seq<char>, JsonTree)>,
}

/// A message by what its fields hold.
pub struct MessageView {
    pub role: Seq<char>,
    pub content: Seq<input::InputView>,
}

/// A tool by what its fields hold.
pub struct ToolView {
    pub name: Seq<char>,
    pub description: Option<Seq<char>>,
    pub input_schema: JsonTree,
}

/// A choice by what it holds.
pub enum ChoiceView {
    Auto,
    Any,
    Tool { name: Seq<char> },
}

impl View for InputMessage {
    type V = MessageView;

    open spec fn view(&self) -> MessageView {
        MessageView {
            role: self.role@,
            content: Seq::new(self.content@.len(), |i: int| self.content@[i]@),
        }
    }
}

impl View for ToolDefinition {
    type V = ToolView;

    open spec fn view(&self) -> ToolView {
        ToolView {
            name: self.name@,
            description: text::optional_text(self.description),
            input_schema: self.input_schema@,
        }
    }
}

impl View for ToolChoice {
    type V = ChoiceView;

    open spec fn view(&self) -> ChoiceView {
        match *self {
            ToolChoice::Auto => ChoiceView::Auto,
            ToolChoice::Any => ChoiceView::Any,
            ToolChoice::Tool { name } => ChoiceView::Tool { name: name@ },
        }
    }
}

impl View for MessageRequest {
    type V = RequestView;

    open spec fn view(&self) -> RequestView {
        RequestView {
            model: self.model@,
            max_tokens: self.max_tokens,
            messages: Seq::new(self.messages@.len(), |i: int| self.messages@[i]@),
            system: text::optional_text(self.system),
            tools: match self.tools {
                Some(tools) => Some(Seq::new(tools@.len(), |i: int| tools@[i]@)),
                None => None,
            },
            tool_choice: match self.tool_choice {
                Some(choice) => Some(choice@),
                None => None,
            },
            stream: self.stream,
            temperature: optional_float(self.temperature),
            top_p: optional_float(self.top_p),
            frequency_penalty: optional_float(self.frequency_penalty),
            presence_penalty: optional_float(self.presence_penalty),
            stop: match self.stop {
                Some(stop) => Some(Seq::new(stop@.len(), |i: int| stop@[i]@)),
                None => None,
            },
            reasoning_effort: text::optional_text(self.reasoning_effort),
            extra_body: listing(self.extra_body@),
        }
    }
}

/// A number on the wire: null where it is infinite or not a number.
pub open spec fn encoded_float(x: FloatView) -> JsonTree {
    match x {
        FloatView::Finite { digits } => JsonTree::Number(json::NumberView::Float { digits }),
        FloatView::NotFinite => JsonTree::Null,
    }
}

/// A message on the wire.
pub open spec fn encoded_message(message: MessageView) -> JsonTree {
    JsonTree::Object(
        seq![
            (
                "content"@,
                JsonTree::Array(
                    Seq::new(
                        message.content.len(),
                        |i: int| input::encoded_input(message.content[i]),
                    ),
                ),
            ),
            ("role"@, JsonTree::String(message.role)),
        ],
    )
}

/// A member that may be left out.
pub open spec fn optional_member(name: Seq<char>, value: Option<JsonTree>) -> Seq<
    (Seq<char>, JsonTree),
> {
    match value {
        Some(v) => seq![(name, v)],
        None => Seq::empty(),
    }
}

/// A text that may be left out, on the wire.
pub open spec fn encoded_text(text: Option<Seq<char>>) -> Option<JsonTree> {
    match text {
        Some(t) => Some(JsonTree::String(t)),
        None => None,
    }
}

/// A tool on the wire.
pub open spec fn encoded_tool(tool: ToolView) -> JsonTree {
    JsonTree::Object(
        optional_member("description"@, encoded_text(tool.description)) + seq![
            ("input_schema"@, tool.input_schema),
            ("name"@, JsonTree::String(tool.name)),
        ],
    )
}

/// A choice on the wire.
pub open spec fn encoded_choice(choice: ChoiceView) -> JsonTree {
    match choice {
        ChoiceView::Auto => JsonTree::Object(seq![("type"@, JsonTree::String("auto"@))]),
        ChoiceView::Any => JsonTree::Object(seq![("type"@, JsonTree::String("any"@))]),
        ChoiceView::Tool { name } => JsonTree::Object(
            seq![("name"@, JsonTree::String(name)), ("type"@, JsonTree::String("tool"@))],
        ),
    }
}

impl Float64 {
    /// Writes a number.
    pub fn serialize(&self) -> (raw: Json)
        ensures
            raw@ == encoded_float(self@),
    {
        match self {
            Float64::Finite { digits } => Json::Number(
                JsonNumber::Float { digits: digits.clone() },
            ),
            Float64::NotFinite => Json::Null,
        }
    }
}

impl InputMessage {
    /// Writes a message.
    pub fn serialize(&self) -> (raw: Json)
        ensures
            raw@ == encoded_message(self@),
    {
        let mut blocks: Vec<Json> = Vec::new();
        let mut i: usize = 0;
        while i < self.content.len()
            invariant
                i <= self.content@.len(),
                blocks@.len() == i,
                forall|j: int|
                    0 <= j < i ==> (#[trigger] blocks@[j])@ == input::encoded_input(
                        self.content@[j]@,
                    ),
            decreases self.content@.len() - i,
        {
            blocks.push(self.content[i].serialize());
            i = i + 1;
        }
        let ghost content = self@.content;
        assert(json::trees(blocks@) =~= Seq::new(
            content.len(),
            |i: int| input::encoded_input(content[i]),
        ));
        let members: Vec<(String, Json)> = vec![
            ("content".to_owned(), Json::array(blocks)),
            ("role".to_owned(), Json::String(self.role.clone())),
        ];
        assert(json::member_trees(members@) =~= encoded_message(self@)->Object_0);
        Json::object(members)
    }
}

impl ToolDefinition {
    /// Writes a tool.
    pub fn serialize(&self) -> (raw: Json)
        ensures
            raw@ == encoded_tool(self@),
    {
        let mut members: Vec<(String, Json)> = Vec::new();
        if let Some(description) = &self.description {
            members.push(("description".to_owned(), Json::String(description.clone())));
        }
        members.push(("input_schema".to_owned(), self.input_schema.clone()));
        members.push(("name".to_owned(), Json::String(self.name.clone())));
        assert(json::member_trees(members@) =~= encoded_tool(self@)->Object_0);
        Json::object(members)
    }
}

impl ToolChoice {
    /// Writes a choice.
    pub fn serialize(&self) -> (raw: Json)
        ensures
            raw@ == encoded_choice(self@),
    {
        let mut members: Vec<(String, Json)> = Vec::new();
        match self {
            ToolChoice::Auto => {
                members.push(("type".to_owned(), Json::String("auto".to_owned())));
            },
            ToolChoice::Any => {
                members.push(("type".to_owned(), Json::String("any".to_owned())));
            },
            ToolChoice::Tool { name } => {
                members.push(("name".to_owned(), Json::String(name.clone())));
                members.push(("type".to_owned(), Json::String("tool".to_owned())));
            },
        }
        assert(json::member_trees(members@) =~= encoded_choice(self@)->Object_0);
        Json::object(members)
    }
}

/// The members, each by its key and its value.
pub open spec fn entry_views(entries: Seq<(&String, &Json)>) -> Seq<(Seq<char>, JsonTree)> {
    Seq::new(entries.len(), |i: int| (entries[i].0@, entries[i].1@))
}

/// `members` holds the entry `key` of `map`.
pub open spec fn has_entry(
    map: Map<String, Json>,
    members: Seq<(Seq<char>, JsonTree)>,
    key: String,
) -> bool {
    exists|i: int| 0 <= i < members.len() && #[trigger] members[i] == (key@, map[key]@)
}

/// `member` is an entry of `map`.
pub open spec fn is_entry(map: Map<String, Json>, member: (Seq<char>, JsonTree)) -> bool {
    exists|key: String| #[trigger] map.contains_key(key) && member == (key@, map[key]@)
}

/// `a` stands before `b` in the order of strings: by the first character in which they
/// differ, or as its beginning.
pub open spec fn precedes(a: Seq<char>, b: Seq<char>) -> bool {
    exists|i: int| #[trigger] differs_at(a, b, i)
}

/// `a` and `b` agree up to `i`, and there `a` ends or has the smaller character.
pub open spec fn differs_at(a: Seq<char>, b: Seq<char>, i: int) -> bool {
    &&& 0 <= i <= a.len()
    &&& i < b.len()
    &&& a.take(i) == b.take(i)
    &&& i < a.len() ==> (a[i] as u32) < (b[i] as u32)
}

/// `members` holds each entry of `map`, and nothing else, in the order of the keys.
pub open spec fn lists(map: Map<String, Json>, members: Seq<(Seq<char>, JsonTree)>) -> bool {
    &&& forall|i: int| 0 <= i < members.len() ==> is_entry(map, #[trigger] members[i])
    &&& forall|key: String| #[trigger] map.contains_key(key) ==> has_entry(map, members, key)
    &&& ascending(members)
}

/// The keys ascend.
pub open spec fn ascending(members: Seq<(Seq<char>, JsonTree)>) -> bool {
    forall|i: int, j: int|
        0 <= i < j < members.len() ==> precedes(
            (#[trigger] members[i]).0,
            (#[trigger] members[j]).0,
        )
}

/// The entries of `map` in the order of their keys.
pub open spec fn listing(map: Map<String, Json>) -> Seq<(Seq<char>, JsonTree)> {
    choose|members: Seq<(Seq<char>, JsonTree)>| lists(map, members)
}

/// `Vec::from_iter` on a `BTreeMap`: each entry of the map, and nothing else, in the order
/// of the keys. The order of strings is that of their characters, one after the other.
#[verifier::external_body]
fn entries_of(map: &BTreeMap<String, Json>) -> (entries: Vec<(&String, &Json)>)
    ensures
        lists(map@, entry_views(entries@)),
{
    Vec::from_iter(map)
}

/// No two strings stand before each other.
proof fn lemma_precedes_asymmetric(a: Seq<char>, b: Seq<char>)
    ensures
        !(precedes(a, b) && precedes(b, a)),
{
    if precedes(a, b) && precedes(b, a) {
        let i: int = choose|i: int| #[trigger] differs_at(a, b, i);
        let j: int = choose|j: int| #[trigger] differs_at(b, a, j);
        if i < j {
            assert(b.take(j)[i] == a.take(j)[i]);
        } else if j < i {
            assert(a.take(i)[j] == b.take(i)[j]);
        }
    }
}

/// Two lists with the same members, both in the order of their keys, are the same.
proof fn lemma_ascending_is_unique(
    a: Seq<(Seq<char>, JsonTree)>,
    b: Seq<(Seq<char>, JsonTree)>,
)
    requires
        ascending(a),
        ascending(b),
        forall|i: int| 0 <= i < a.len() ==> b.contains(#[trigger] a[i]),
        forall|j: int| 0 <= j < b.len() ==> a.contains(#[trigger] b[j]),
    ensures
        a == b,
    decreases a.len(),
{
    if a.len() == 0 {
        if b.len() > 0 {
            assert(a.contains(b[0]));
        }
        assert(a =~= b);
    } else {
        assert(b.contains(a[0]));
        let m: int = a.len() - 1;
        let n: int = b.len() - 1;
        let j: int = choose|j: int| 0 <= j < b.len() && b[j] == a[m];
        let i: int = choose|i: int| 0 <= i < a.len() && a[i] == b[n];
        assert(b.contains(a[m]) && a.contains(b[n]));
        lemma_precedes_asymmetric(a[m].0, b[n].0);
        assert(a[m] == b[n]);
        let front = a.drop_last();
        let rest = b.drop_last();
        assert forall|k: int| 0 <= k < front.len() implies rest.contains(#[trigger] front[k]) by {
            assert(b.contains(a[k]));
            let l: int = choose|l: int| 0 <= l < b.len() && b[l] == a[k];
            lemma_precedes_asymmetric(a[k].0, a[m].0);
            assert(l != n);
            assert(rest[l] == front[k]);
        }
        assert forall|k: int| 0 <= k < rest.len() implies front.contains(#[trigger] rest[k]) by {
            assert(a.contains(b[k]));
            let l: int = choose|l: int| 0 <= l < a.len() && a[l] == b[k];
            lemma_precedes_asymmetric(b[k].0, b[n].0);
            assert(l != m);
            assert(front[l] == rest[k]);
        }
        assert(ascending(front)) by {
            assert forall|x: int, y: int| 0 <= x < y < front.len() implies precedes(
                (#[trigger] front[x]).0,
                (#[trigger] front[y]).0,
            ) by {
                assert(precedes(a[x].0, a[y].0));
            }
        }
        assert(ascending(rest)) by {
            assert forall|x: int, y: int| 0 <= x < y < rest.len() implies precedes(
                (#[trigger] rest[x]).0,
                (#[trigger] rest[y]).0,
            ) by {
                assert(precedes(b[x].0, b[y].0));
            }
        }
        lemma_ascending_is_unique(front, rest);
        assert(a =~= front.push(a[m]));
        assert(b =~= rest.push(b[n]));
    }
}

/// There is one way to list the entries of a map.
pub proof fn lemma_listing(map: Map<String, Json>, members: Seq<(Seq<char>, JsonTree)>)
    requires
        lists(map, members),
    ensures
        listing(map) == members,
{
    let l = listing(map);
    assert(lists(map, l));
    assert forall|i: int| 0 <= i < l.len() implies members.contains(#[trigger] l[i]) by {
        assert(is_entry(map, l[i]));
        let key: String = choose|key: String| #[trigger]
            map.contains_key(key) && l[i] == (key@, map[key]@);
        assert(has_entry(map, members, key));
    }
    assert forall|i: int| 0 <= i < members.len() implies l.contains(#[trigger] members[i]) by {
        assert(is_entry(map, members[i]));
        let key: String = choose|key: String| #[trigger]
            map.contains_key(key) && members[i] == (key@, map[key]@);
        assert(has_entry(map, l, key));
    }
    lemma_ascending_is_unique(l, members);
}

/// A number that may be left out, on the wire.
pub open spec fn encoded_optional_float(x: Option<FloatView>) -> Option<JsonTree> {
    match x {
        Some(x) => Some(encoded_float(x)),
        None => None,
    }
}

/// The messages on the wire.
pub open spec fn encoded_messages(messages: Seq<MessageView>) -> JsonTree {
    JsonTree::Array(Seq::new(messages.len(), |i: int| encoded_message(messages[i])))
}

/// The stop sequences on the wire, if there are any.
pub open spec fn encoded_stop(stop: Option<Seq<Seq<char>>>) -> Option<JsonTree> {
    match stop {
        Some(stop) => Some(
            JsonTree::Array(Seq::new(stop.len(), |i: int| JsonTree::String(stop[i]))),
        ),
        None => None,
    }
}

/// The tools on the wire, if there are any.
pub open spec fn encoded_tools(tools: Option<Seq<ToolView>>) -> Option<JsonTree> {
    match tools {
        Some(tools) => Some(
            JsonTree::Array(Seq::new(tools.len(), |i: int| encoded_tool(tools[i]))),
        ),
        None => None,
    }
}

/// The choice of a tool on the wire, if there is one.
pub open spec fn encoded_optional_choice(choice: Option<ChoiceView>) -> Option<JsonTree> {
    match choice {
        Some(choice) => Some(encoded_choice(choice)),
        None => None,
    }
}

/// The further members on the wire, if there are any.
pub open spec fn encoded_extra(extra: Seq<(Seq<char>, JsonTree)>) -> Option<JsonTree> {
    if extra.len() == 0 {
        None
    } else {
        Some(JsonTree::Object(extra))
    }
}

/// The flag for streaming on the wire, if it is set.
pub open spec fn encoded_stream(stream: bool) -> Option<JsonTree> {
    if stream {
        Some(JsonTree::Bool(true))
    } else {
        None
    }
}

/// The members of a request, in the order of their keys. What is not set is left out.
pub open spec fn request_members(request: RequestView) -> Seq<(Seq<char>, JsonTree)> {
    optional_member("extra_body"@, encoded_extra(request.extra_body)) + optional_member(
        "frequency_penalty"@,
        encoded_optional_float(request.frequency_penalty),
    ) + optional_member(
        "max_tokens"@,
        Some(JsonTree::Number(json::NumberView::Unsigned(request.max_tokens as u64))),
    ) + optional_member("messages"@, Some(encoded_messages(request.messages))) + optional_member(
        "model"@,
        Some(JsonTree::String(request.model)),
    ) + optional_member("presence_penalty"@, encoded_optional_float(request.presence_penalty))
        + optional_member("reasoning_effort"@, encoded_text(request.reasoning_effort))
        + optional_member("stop"@, encoded_stop(request.stop)) + optional_member(
        "stream"@,
        encoded_stream(request.stream),
    ) + optional_member("system"@, encoded_text(request.system)) + optional_member(
        "temperature"@,
        encoded_optional_float(request.temperature),
    ) + optional_member("tool_choice"@, encoded_optional_choice(request.tool_choice))
        + optional_member("tools"@, encoded_tools(request.tools)) + optional_member(
        "top_p"@,
        encoded_optional_float(request.top_p),
    )
}

/// A request on the wire.
pub open spec fn encoded_request(request: RequestView) -> JsonTree {
    JsonTree::Object(request_members(request))
}

/// Appends a member that may be left out.
fn push_optional(members: &mut Vec<(String, Json)>, name: &str, value: Option<Json>)
    ensures
        json::member_trees(final(members)@) == json::member_trees(old(members)@) + optional_member(
            name@,
            json::optional_tree(value),
        ),
{
    if let Some(value) = value {
        members.push((name.to_owned(), value));
    }
    assert(json::member_trees(members@) =~= json::member_trees(old(members)@) + optional_member(
        name@,
        json::optional_tree(value),
    ));
}

/// Writes a text that may be left out.
fn text_json(text: &Option<String>) -> (raw: Option<Json>)
    ensures
        json::optional_tree(raw) == encoded_text(text::optional_text(*text)),
{
    match text {
        Some(text) => Some(Json::String(text.clone())),
        None => None,
    }
}

/// Writes a number that may be left out.
fn float_json(x: &Option<Float64>) -> (raw: Option<Json>)
    ensures
        json::optional_tree(raw) == encoded_optional_float(optional_float(*x)),
{
    match x {
        Some(x) => Some(x.serialize()),
        None => None,
    }
}

impl MessageRequest {
    /// Writes the messages.
    fn messages_json(&self) -> (raw: Json)
        ensures
            raw@ == encoded_messages(self@.messages),
    {
        let mut items: Vec<Json> = Vec::new();
        let mut i: usize = 0;
        while i < self.messages.len()
            invariant
                i <= self.messages@.len(),
                items@.len() == i,
                forall|j: int|
                    0 <= j < i ==> (#[trigger] items@[j])@ == encoded_message(self.messages@[j]@),
            decreases self.messages@.len() - i,
        {
            items.push(self.messages[i].serialize());
            i = i + 1;
        }
        assert(json::trees(items@) =~= encoded_messages(self@.messages)->Array_0);
        Json::array(items)
    }

    /// Writes the stop sequences.
    fn stop_json(&self) -> (raw: Option<Json>)
        ensures
            json::optional_tree(raw) == encoded_stop(self@.stop),
    {
        let stop = match &self.stop {
            Some(stop) => stop,
            None => return None,
        };
        let mut items: Vec<Json> = Vec::new();
        let mut i: usize = 0;
        while i < stop.len()
            invariant
                i <= stop@.len(),
                items@.len() == i,
                forall|j: int|
                    0 <= j < i ==> (#[trigger] items@[j])@ == JsonTree::String(stop@[j]@),
            decreases stop@.len() - i,
        {
            items.push(Json::String(stop[i].clone()));
            i = i + 1;
        }
        assert(json::trees(items@) =~= encoded_stop(self@.stop)->Some_0->Array_0);
        Some(Json::array(items))
    }

    /// Writes the tools.
    fn tools_json(&self) -> (raw: Option<Json>)
        ensures
            json::optional_tree(raw) == encoded_tools(self@.tools),
    {
        let tools = match &self.tools {
            Some(tools) => tools,
            None => return None,
        };
        let mut items: Vec<Json> = Vec::new();
        let mut i: usize = 0;
        while i < tools.len()
            invariant
                i <= tools@.len(),
                items@.len() == i,
                forall|j: int| 0 <= j < i ==> (#[trigger] items@[j])@ == encoded_tool(tools@[j]@),
            decreases tools@.len() - i,
        {
            items.push(tools[i].serialize());
            i = i + 1;
        }
        assert(json::trees(items@) =~= encoded_tools(self@.tools)->Some_0->Array_0);
        Some(Json::array(items))
    }

    /// Writes the further members of the body.
    fn extra_json(&self) -> (raw: Option<Json>)
        ensures
            json::optional_tree(raw) == encoded_extra(self@.extra_body),
    {
        let entries = entries_of(&self.extra_body);
        let ghost extra = entry_views(entries@);
        proof {
            lemma_listing(self.extra_body@, extra);
        }
        if entries.len() == 0 {
            return None;
        }
        let mut members: Vec<(String, Json)> = Vec::new();
        let mut i: usize = 0;
        while i < entries.len()
            invariant
                i <= entries@.len(),
                members@.len() == i,
                forall|j: int|
                    0 <= j < i ==> {
                        &&& (#[trigger] members@[j]).0@ == entries@[j].0@
                        &&& members@[j].1@ == entries@[j].1@
                    },
            decreases entries@.len() - i,
        {
            members.push((entries[i].0.clone(), entries[i].1.clone()));
            i = i + 1;
        }
        assert(json::member_trees(members@) =~= extra);
        Some(Json::object(members))
    }

    /// Writes a request. What is not set is left out.
    pub fn serialize(&self) -> (raw: Json)
        ensures
            raw@ == encoded_request(self@),
    {
        let mut members: Vec<(String, Json)> = Vec::new();
        push_optional(&mut members, "extra_body", self.extra_json());
        proof {
            assert(json::member_trees(members@) =~= optional_member(
                "extra_body"@,
                encoded_extra(self@.extra_body),
            ));
        }
        push_optional(&mut members, "frequency_penalty", float_json(&self.frequency_penalty));
        let max_tokens = Json::Number(JsonNumber::Unsigned(self.max_tokens as u64));
        push_optional(&mut members, "max_tokens", Some(max_tokens));
        push_optional(&mut members, "messages", Some(self.messages_json()));
        push_optional(&mut members, "model", Some(Json::String(self.model.clone())));
        push_optional(&mut members, "presence_penalty", float_json(&self.presence_penalty));
        push_optional(&mut members, "reasoning_effort", text_json(&self.reasoning_effort));
        push_optional(&mut members, "stop", self.stop_json());
        let stream = if self.stream {
            Some(Json::Bool(true))
        } else {
            None
        };
        push_optional(&mut members, "stream", stream);
        push_optional(&mut members, "system", text_json(&self.system));
        push_optional(&mut members, "temperature", float_json(&self.temperature));
        let tool_choice = match &self.tool_choice {
            Some(choice) => Some(choice.serialize()),
            None => None,
        };
        push_optional(&mut members, "tool_choice", tool_choice);
        push_optional(&mut members, "tools", self.tools_json());
        push_optional(&mut members, "top_p", float_json(&self.top_p));
        proof {
            assert(json::member_trees(members@) == request_members(self@));
        }
        Json::object(members)
    }
}

/// What the member `key` of a request is.
pub open spec fn named_member(
    request: RequestView,
    key: Seq<char>,
) -> Option<JsonTree> {
    if key == "extra_body"@ {
        encoded_extra(request.extra_body)
    } else if key == "frequency_penalty"@ {
        encoded_optional_float(request.frequency_penalty)
    } else if key == "max_tokens"@ {
        Some(JsonTree::Number(json::NumberView::Unsigned(request.max_tokens as u64)))
    } else if key == "messages"@ {
        Some(encoded_messages(request.messages))
    } else if key == "model"@ {
        Some(JsonTree::String(request.model))
    } else if key == "presence_penalty"@ {
        encoded_optional_float(request.presence_penalty)
    } else if key == "reasoning_effort"@ {
        encoded_text(request.reasoning_effort)
    } else if key == "stop"@ {
        encoded_stop(request.stop)
    } else if key == "stream"@ {
        encoded_stream(request.stream)
    } else if key == "system"@ {
        encoded_text(request.system)
    } else if key == "temperature"@ {
        encoded_optional_float(request.temperature)
    } else if key == "tool_choice"@ {
        encoded_optional_choice(request.tool_choice)
    } else if key == "tools"@ {
        encoded_tools(request.tools)
    } else if key == "top_p"@ {
        encoded_optional_float(request.top_p)
    } else {
        None
    }
}

/// Looking into two lists of members is looking into the first, then into the second.
proof fn lemma_member_of_sum(
    a: Seq<(Seq<char>, JsonTree)>,
    b: Seq<(Seq<char>, JsonTree)>,
    key: Seq<char>,
)
    ensures
        json::member_of(a + b, key) == (match json::member_of(a, key) {
            Some(value) => Some(value),
            None => json::member_of(b, key),
        }),
    decreases a.len(),
{
    if a.len() == 0 {
        assert(a + b =~= b);
    } else {
        assert((a + b).skip(1) =~= a.skip(1) + b);
        lemma_member_of_sum(a.skip(1), b, key);
    }
}

/// A member that may be left out is found under its name and under no other.
proof fn lemma_optional_member(name: Seq<char>, value: Option<JsonTree>, key: Seq<char>)
    ensures
        json::member_of(optional_member(name, value), key) == (if name == key {
            value
        } else {
            None
        }),
{
    reveal_with_fuel(json::member_of, 2);
}

/// The member `key` of a request, by the name that it is.
proof fn lemma_request_member(
    request: RequestView,
    key: Seq<char>,
)
    ensures
        json::member_of(request_members(request), key) == named_member(request, key),
{
    lemma_request_names();
    let m0 = optional_member("extra_body"@, encoded_extra(request.extra_body));
    lemma_optional_member("extra_body"@, encoded_extra(request.extra_body), key);
    let m1 = optional_member("frequency_penalty"@, encoded_optional_float(request.frequency_penalty));
    lemma_optional_member("frequency_penalty"@, encoded_optional_float(request.frequency_penalty), key);
    let m2 = optional_member("max_tokens"@, Some(JsonTree::Number(json::NumberView::Unsigned(request.max_tokens as u64))));
    lemma_optional_member("max_tokens"@, Some(JsonTree::Number(json::NumberView::Unsigned(request.max_tokens as u64))), key);
    let m3 = optional_member("messages"@, Some(encoded_messages(request.messages)));
    lemma_optional_member("messages"@, Some(encoded_messages(request.messages)), key);
    let m4 = optional_member("model"@, Some(JsonTree::String(request.model)));
    lemma_optional_member("model"@, Some(JsonTree::String(request.model)), key);
    let m5 = optional_member("presence_penalty"@, encoded_optional_float(request.presence_penalty));
    lemma_optional_member("presence_penalty"@, encoded_optional_float(request.presence_penalty), key);
    let m6 = optional_member("reasoning_effort"@, encoded_text(request.reasoning_effort));
    lemma_optional_member("reasoning_effort"@, encoded_text(request.reasoning_effort), key);
    let m7 = optional_member("stop"@, encoded_stop(request.stop));
    lemma_optional_member("stop"@, encoded_stop(request.stop), key);
    let m8 = optional_member("stream"@, encoded_stream(request.stream));
    lemma_optional_member("stream"@, encoded_stream(request.stream), key);
    let m9 = optional_member("system"@, encoded_text(request.system));
    lemma_optional_member("system"@, encoded_text(request.system), key);
    let m10 = optional_member("temperature"@, encoded_optional_float(request.temperature));
    lemma_optional_member("temperature"@, encoded_optional_float(request.temperature), key);
    let m11 = optional_member("tool_choice"@, encoded_optional_choice(request.tool_choice));
    lemma_optional_member("tool_choice"@, encoded_optional_choice(request.tool_choice), key);
    let m12 = optional_member("tools"@, encoded_tools(request.tools));
    lemma_optional_member("tools"@, encoded_tools(request.tools), key);
    let m13 = optional_member("top_p"@, encoded_optional_float(request.top_p));
    lemma_optional_member("top_p"@, encoded_optional_float(request.top_p), key);
    let s1 = m0 + m1;
    lemma_member_of_sum(m0, m1, key);
    let s2 = s1 + m2;
    lemma_member_of_sum(s1, m2, key);
    let s3 = s2 + m3;
    lemma_member_of_sum(s2, m3, key);
    let s4 = s3 + m4;
    lemma_member_of_sum(s3, m4, key);
    let s5 = s4 + m5;
    lemma_member_of_sum(s4, m5, key);
    let s6 = s5 + m6;
    lemma_member_of_sum(s5, m6, key);
    let s7 = s6 + m7;
    lemma_member_of_sum(s6, m7, key);
    let s8 = s7 + m8;
    lemma_member_of_sum(s7, m8, key);
    let s9 = s8 + m9;
    lemma_member_of_sum(s8, m9, key);
    let s10 = s9 + m10;
    lemma_member_of_sum(s9, m10, key);
    let s11 = s10 + m11;
    lemma_member_of_sum(s10, m11, key);
    let s12 = s11 + m12;
    lemma_member_of_sum(s11, m12, key);
    let s13 = s12 + m13;
    lemma_member_of_sum(s12, m13, key);
    assert(request_members(request) == s13);
}

/// The names of the members of a request are different words: they differ in their length,
/// or in a letter.
proof fn lemma_request_names()
    ensures
        "extra_body"@.len() == 10,
        "frequency_penalty"@.len() == 17,
        "max_tokens"@.len() == 10,
        "messages"@.len() == 8,
        "model"@.len() == 5,
        "presence_penalty"@.len() == 16,
        "reasoning_effort"@.len() == 16,
        "stop"@.len() == 4,
        "stream"@.len() == 6,
        "system"@.len() == 6,
        "temperature"@.len() == 11,
        "tool_choice"@.len() == 11,
        "tools"@.len() == 5,
        "top_p"@.len() == 5,
        "extra_body"@[0] != "max_tokens"@[0],
        "presence_penalty"@[0] != "reasoning_effort"@[0],
        "stream"@[1] != "system"@[1],
        "temperature"@[1] != "tool_choice"@[1],
        "model"@[0] != "tools"@[0],
        "model"@[0] != "top_p"@[0],
        "tools"@[2] != "top_p"@[2],
{
    reveal_strlit("extra_body");
    reveal_strlit("frequency_penalty");
    reveal_strlit("max_tokens");
    reveal_strlit("messages");
    reveal_strlit("model");
    reveal_strlit("presence_penalty");
    reveal_strlit("reasoning_effort");
    reveal_strlit("stop");
    reveal_strlit("stream");
    reveal_strlit("system");
    reveal_strlit("temperature");
    reveal_strlit("tool_choice");
    reveal_strlit("tools");
    reveal_strlit("top_p");
}

/// Each field of a request that is set stands on the wire under its name, each that is not
/// set is left out, and so are a stream flag that is off and an empty list of further
/// members. The further members stand on their own: they replace no field.
pub proof fn law_request_on_the_wire(
    request: RequestView,
    key: Seq<char>,
)
    ensures
        encoded_request(request).get(key) == named_member(request, key),
{
    lemma_request_member(request, key);
}

/// What is not set does not stand on the wire.
pub proof fn law_unset_fields_are_left_out(
    request: RequestView,
)
    ensures
        ({
            let raw = encoded_request(request);
            &&& raw.get("system"@) is None <==> request.system is None
            &&& raw.get("tools"@) is None <==> request.tools is None
            &&& raw.get("tool_choice"@) is None <==> request.tool_choice is None
            &&& raw.get("stream"@) is None <==> !request.stream
            &&& raw.get("temperature"@) is None <==> request.temperature is None
            &&& raw.get("top_p"@) is None <==> request.top_p is None
            &&& raw.get("frequency_penalty"@) is None <==> request.frequency_penalty is None
            &&& raw.get("presence_penalty"@) is None <==> request.presence_penalty is None
            &&& raw.get("stop"@) is None <==> request.stop is None
            &&& raw.get("reasoning_effort"@) is None <==> request.reasoning_effort is None
            &&& raw.get("extra_body"@) is None <==> request.extra_body.len() == 0
        }),
{
    lemma_request_names();
    lemma_request_member(request, "extra_body"@);
    lemma_request_member(request, "frequency_penalty"@);
    lemma_request_member(request, "presence_penalty"@);
    lemma_request_member(request, "reasoning_effort"@);
    lemma_request_member(request, "stop"@);
    lemma_request_member(request, "stream"@);
    lemma_request_member(request, "system"@);
    lemma_request_member(request, "temperature"@);
    lemma_request_member(request, "tool_choice"@);
    lemma_request_member(request, "tools"@);
    lemma_request_member(request, "top_p"@);
}

/// A request goes out with each field that is set under that field's name: its messages, stop
/// sequences and tools each in its place, and nothing else. What is not set is left out.
pub proof fn law_written_request_holds_its_fields(request: MessageRequest, raw: Json, key: Seq<char>)
    requires
        raw@ == encoded_request(request@),
    ensures
        raw@.get("model"@) == Some(JsonTree::String(request.model@)),
        raw@.get("max_tokens"@) == Some(
            JsonTree::Number(json::NumberView::Unsigned(request.max_tokens as u64)),
        ),
        raw@.get("messages"@) is Some && raw@.get("messages"@)->Some_0 is Array,
        raw@.get("messages"@)->Some_0->Array_0.len() == request.messages@.len(),
        forall|i: int|
            0 <= i < request.messages@.len() ==> raw@.get("messages"@)->Some_0->Array_0[i]
                == encoded_message((#[trigger] request.messages@[i])@),
        raw@.get("stream"@) == (if request.stream {
            Some(JsonTree::Bool(true))
        } else {
            None
        }),
        match request.system {
            Some(text) => raw@.get("system"@) == Some(JsonTree::String(text@)),
            None => raw@.get("system"@) is None,
        },
        match request.reasoning_effort {
            Some(text) => raw@.get("reasoning_effort"@) == Some(JsonTree::String(text@)),
            None => raw@.get("reasoning_effort"@) is None,
        },
        match request.temperature {
            Some(Float64::Finite { digits }) => raw@.get("temperature"@) == Some(
                JsonTree::Number(json::NumberView::Float { digits: digits@ }),
            ),
            Some(Float64::NotFinite) => raw@.get("temperature"@) == Some(JsonTree::Null),
            None => raw@.get("temperature"@) is None,
        },
        match request.top_p {
            Some(Float64::Finite { digits }) => raw@.get("top_p"@) == Some(
                JsonTree::Number(json::NumberView::Float { digits: digits@ }),
            ),
            Some(Float64::NotFinite) => raw@.get("top_p"@) == Some(JsonTree::Null),
            None => raw@.get("top_p"@) is None,
        },
        match request.frequency_penalty {
            Some(Float64::Finite { digits }) => raw@.get("frequency_penalty"@) == Some(
                JsonTree::Number(json::NumberView::Float { digits: digits@ }),
            ),
            Some(Float64::NotFinite) => raw@.get("frequency_penalty"@) == Some(JsonTree::Null),
            None => raw@.get("frequency_penalty"@) is None,
        },
        match request.presence_penalty {
            Some(Float64::Finite { digits }) => raw@.get("presence_penalty"@) == Some(
                JsonTree::Number(json::NumberView::Float { digits: digits@ }),
            ),
            Some(Float64::NotFinite) => raw@.get("presence_penalty"@) == Some(JsonTree::Null),
            None => raw@.get("presence_penalty"@) is None,
        },
        match request.stop {
            Some(stop) => {
                &&& raw@.get("stop"@) is Some && raw@.get("stop"@)->Some_0 is Array
                &&& raw@.get("stop"@)->Some_0->Array_0.len() == stop@.len()
                &&& forall|i: int|
                    0 <= i < stop@.len() ==> raw@.get("stop"@)->Some_0->Array_0[i]
                        == JsonTree::String((#[trigger] stop@[i])@)
            },
            None => raw@.get("stop"@) is None,
        },
        match request.tools {
            Some(tools) => {
                &&& raw@.get("tools"@) is Some && raw@.get("tools"@)->Some_0 is Array
                &&& raw@.get("tools"@)->Some_0->Array_0.len() == tools@.len()
                &&& forall|i: int|
                    0 <= i < tools@.len() ==> raw@.get("tools"@)->Some_0->Array_0[i]
                        == encoded_tool((#[trigger] tools@[i])@)
            },
            None => raw@.get("tools"@) is None,
        },
        match request.tool_choice {
            Some(choice) => raw@.get("tool_choice"@) == Some(encoded_choice(choice@)),
            None => raw@.get("tool_choice"@) is None,
        },
        raw@.get(key) is Some ==> key == "extra_body"@ || key == "frequency_penalty"@ || key == "max_tokens"@ || key == "messages"@ || key == "model"@ || key == "presence_penalty"@ || key == "reasoning_effort"@ || key == "stop"@ || key == "stream"@ || key == "system"@ || key == "temperature"@ || key == "tool_choice"@ || key == "tools"@ || key == "top_p"@,
{
    lemma_request_names();
    lemma_request_member(request@, "extra_body"@);
    lemma_request_member(request@, "frequency_penalty"@);
    lemma_request_member(request@, "max_tokens"@);
    lemma_request_member(request@, "messages"@);
    lemma_request_member(request@, "model"@);
    lemma_request_member(request@, "presence_penalty"@);
    lemma_request_member(request@, "reasoning_effort"@);
    lemma_request_member(request@, "stop"@);
    lemma_request_member(request@, "stream"@);
    lemma_request_member(request@, "system"@);
    lemma_request_member(request@, "temperature"@);
    lemma_request_member(request@, "tool_choice"@);
    lemma_request_member(request@, "tools"@);
    lemma_request_member(request@, "top_p"@);
    lemma_request_member(request@, key);
}

/// The further members of a request go out under `extra_body`, each under its key, and where
/// there are none, neither is `extra_body`.
pub proof fn law_written_request_holds_its_further_members(
    request: MessageRequest,
    raw: Json,
    members: Seq<(Seq<char>, JsonTree)>,
    name: String,
)
    requires
        raw@ == encoded_request(request@),
        lists(request.extra_body@, members),
    ensures
        raw@.get("extra_body"@) is None <==> members.len() == 0,
        request.extra_body@.contains_key(name) ==> {
            &&& raw@.get("extra_body"@) is Some
            &&& raw@.get("extra_body"@)->Some_0.get(name@) == Some(request.extra_body@[name]@)
        },
        members.len() > 0 ==> forall|i: int|
            0 <= i < raw@.get("extra_body"@)->Some_0->Object_0.len() ==> is_entry(
                request.extra_body@,
                #[trigger] raw@.get("extra_body"@)->Some_0->Object_0[i],
            ),
{
    lemma_request_names();
    lemma_request_member(request@, "extra_body"@);
    lemma_listing(request.extra_body@, members);
    if request.extra_body@.contains_key(name) {
        assert(has_entry(request.extra_body@, members, name));
        let i: int = choose|i: int|
            0 <= i < members.len() && #[trigger] members[i] == (
                name@,
                request.extra_body@[name]@,
            );
        assert forall|j: int| 0 <= j < i implies (#[trigger] members[j]).0 != members[i].0 by {
            assert(precedes(members[j].0, members[i].0));
            lemma_precedes_asymmetric(members[j].0, members[i].0);
        }
        json::law_first_member_is_found(members, i);
    }
}

/// A message goes out with its role and its content, the blocks each in its place, and nothing
/// else.
pub proof fn law_written_message_holds_its_fields(message: InputMessage, raw: Json, key: Seq<char>)
    requires
        raw@ == encoded_message(message@),
    ensures
        raw@.get("role"@) == Some(JsonTree::String(message.role@)),
        raw@.get("content"@) is Some && raw@.get("content"@)->Some_0 is Array,
        raw@.get("content"@)->Some_0->Array_0.len() == message.content@.len(),
        forall|i: int|
            0 <= i < message.content@.len() ==> raw@.get("content"@)->Some_0->Array_0[i]
                == input::encoded_input((#[trigger] message.content@[i])@),
        raw@.get(key) is Some ==> key == "role"@ || key == "content"@,
        raw@ is Object && raw@->Object_0.len() == 2,
{
    reveal_strlit("role");
    reveal_strlit("content");
    let members = raw@->Object_0;
    reveal_with_fuel(json::member_of, 3);
    assert(members.skip(1).skip(1) =~= members.skip(2));
    assert("role"@.len() != "content"@.len());
}

/// A tool goes out with its name, its schema and its description, if it has one, and nothing
/// else.
pub proof fn law_written_tool_holds_its_fields(tool: ToolDefinition, raw: Json, key: Seq<char>)
    requires
        raw@ == encoded_tool(tool@),
    ensures
        raw@.get("name"@) == Some(JsonTree::String(tool.name@)),
        raw@.get("input_schema"@) == Some(tool.input_schema@),
        match tool.description {
            Some(description) => raw@.get("description"@) == Some(JsonTree::String(description@)),
            None => raw@.get("description"@) is None,
        },
        raw@.get(key) is Some ==> key == "name"@ || key == "input_schema"@ || key
            == "description"@,
        raw@ is Object && raw@->Object_0.len() == (if tool.description is Some {
            3int
        } else {
            2
        }),
{
    reveal_strlit("name");
    reveal_strlit("input_schema");
    reveal_strlit("description");
    assert("name"@.len() != "input_schema"@.len());
    assert("name"@.len() != "description"@.len());
    assert("input_schema"@.len() != "description"@.len());
    let members = raw@->Object_0;
    reveal_with_fuel(json::member_of, 4);
    assert(members.skip(1).skip(1) =~= members.skip(2));
    if tool.description is Some {
        assert(members[0] == ("description"@, JsonTree::String(tool.description->Some_0@)));
        assert(members[1] == ("input_schema"@, tool.input_schema@));
        assert(members[2] == ("name"@, JsonTree::String(tool.name@)));
        assert(members.skip(1).skip(1).skip(1) =~= members.skip(3));
    } else {
        assert(members[0] == ("input_schema"@, tool.input_schema@));
        assert(members[1] == ("name"@, JsonTree::String(tool.name@)));
    }
}

/// A choice goes out with its type, and with the name of the tool where it names one.
pub proof fn law_written_choice_holds_its_fields(choice: ToolChoice, raw: Json)
    requires
        raw@ == encoded_choice(choice@),
    ensures
        raw@ is Object && raw@->Object_0.len() == (if choice is Tool {
            2int
        } else {
            1
        }),
        match choice {
            ToolChoice::Auto => raw@.get("type"@) == Some(JsonTree::String("auto"@)) && raw@.get(
                "name"@,
            ) is None,
            ToolChoice::Any => raw@.get("type"@) == Some(JsonTree::String("any"@)) && raw@.get(
                "name"@,
            ) is None,
            ToolChoice::Tool { name } => raw@.get("type"@) == Some(JsonTree::String("tool"@))
                && raw@.get("name"@) == Some(JsonTree::String(name@)),
        },
{
    reveal_strlit("name");
    reveal_strlit("type");
    assert("name"@[0] != "type"@[0]);
    let members = raw@->Object_0;
    reveal_with_fuel(json::member_of, 3);
}

/// A number goes out by its digits, and as null where it is infinite or not a number.
pub proof fn law_written_number_holds_its_digits(x: Float64, raw: Json)
    requires
        raw@ == encoded_float(x@),
    ensures
        match x {
            Float64::Finite { digits } => raw@ == JsonTree::Number(
                json::NumberView::Float { digits: digits@ },
            ),
            Float64::NotFinite => raw@ == JsonTree::Null,
        },
{
}

/// One where something is so, and nothing where it is not.
#[verifier::opaque]
pub open spec fn one_if(b: bool) -> int {
    if b {
        1
    } else {
        0
    }
}

/// A request has three members and one more for each field that is set: none stands there twice.
pub proof fn law_written_request_has_no_member_twice(request: MessageRequest, raw: Json)
    requires
        raw@ == encoded_request(request@),
    ensures
        raw@ is Object,
        raw@->Object_0.len() == 3 + one_if(request@.extra_body.len() > 0) + one_if(request.frequency_penalty is Some) + one_if(request.presence_penalty is Some) + one_if(request.reasoning_effort is Some) + one_if(request.stop is Some) + one_if(request.stream) + one_if(request.system is Some) + one_if(request.temperature is Some) + one_if(request.tool_choice is Some) + one_if(request.tools is Some) + one_if(request.top_p is Some),
{
    lemma_request_len(request@);
    let view = request@;
    assert((view.system is Some) == (request.system is Some));
    assert((view.tools is Some) == (request.tools is Some));
    assert((view.tool_choice is Some) == (request.tool_choice is Some));
    assert((view.temperature is Some) == (request.temperature is Some));
    assert((view.top_p is Some) == (request.top_p is Some));
    assert((view.frequency_penalty is Some) == (request.frequency_penalty is Some));
    assert((view.presence_penalty is Some) == (request.presence_penalty is Some));
    assert((view.stop is Some) == (request.stop is Some));
    assert((view.reasoning_effort is Some) == (request.reasoning_effort is Some));
}

#[verifier::spinoff_prover]
#[verifier::rlimit(100)]
proof fn lemma_request_len(request: RequestView)
    ensures
        request_members(request).len() == 3 + one_if(request.extra_body.len() > 0) + one_if(request.frequency_penalty is Some) + one_if(request.presence_penalty is Some) + one_if(request.reasoning_effort is Some) + one_if(request.stop is Some) + one_if(request.stream) + one_if(request.system is Some) + one_if(request.temperature is Some) + one_if(request.tool_choice is Some) + one_if(request.tools is Some) + one_if(request.top_p is Some),
{
    lemma_optional_len("extra_body"@, encoded_extra(request.extra_body), request.extra_body.len() > 0);
    lemma_optional_len("frequency_penalty"@, encoded_optional_float(request.frequency_penalty), request.frequency_penalty is Some);
    lemma_optional_len("max_tokens"@, Some(JsonTree::Number(json::NumberView::Unsigned(request.max_tokens as u64))), true);
    lemma_optional_len("messages"@, Some(encoded_messages(request.messages)), true);
    lemma_optional_len("model"@, Some(JsonTree::String(request.model)), true);
    lemma_optional_len("presence_penalty"@, encoded_optional_float(request.presence_penalty), request.presence_penalty is Some);
    lemma_optional_len("reasoning_effort"@, encoded_text(request.reasoning_effort), request.reasoning_effort is Some);
    lemma_optional_len("stop"@, encoded_stop(request.stop), request.stop is Some);
    lemma_optional_len("stream"@, encoded_stream(request.stream), request.stream);
    lemma_optional_len("system"@, encoded_text(request.system), request.system is Some);
    lemma_optional_len("temperature"@, encoded_optional_float(request.temperature), request.temperature is Some);
    lemma_optional_len("tool_choice"@, encoded_optional_choice(request.tool_choice), request.tool_choice is Some);
    lemma_optional_len("tools"@, encoded_tools(request.tools), request.tools is Some);
    lemma_optional_len("top_p"@, encoded_optional_float(request.top_p), request.top_p is Some);
    assert(one_if(true) == 1) by {
        reveal(one_if);
    }
    lemma_sum_of_lens(
        optional_member("extra_body"@, encoded_extra(request.extra_body)),
        optional_member("frequency_penalty"@, encoded_optional_float(request.frequency_penalty)),
        optional_member("max_tokens"@, Some(JsonTree::Number(json::NumberView::Unsigned(request.max_tokens as u64)))),
        optional_member("messages"@, Some(encoded_messages(request.messages))),
        optional_member("model"@, Some(JsonTree::String(request.model))),
        optional_member("presence_penalty"@, encoded_optional_float(request.presence_penalty)),
        optional_member("reasoning_effort"@, encoded_text(request.reasoning_effort)),
        optional_member("stop"@, encoded_stop(request.stop)),
        optional_member("stream"@, encoded_stream(request.stream)),
        optional_member("system"@, encoded_text(request.system)),
        optional_member("temperature"@, encoded_optional_float(request.temperature)),
        optional_member("tool_choice"@, encoded_optional_choice(request.tool_choice)),
        optional_member("tools"@, encoded_tools(request.tools)),
        optional_member("top_p"@, encoded_optional_float(request.top_p)),
    );
}

/// Lists side by side are as long as all of them.
proof fn lemma_sum_of_lens(
    m0: Seq<(Seq<char>, JsonTree)>,
    m1: Seq<(Seq<char>, JsonTree)>,
    m2: Seq<(Seq<char>, JsonTree)>,
    m3: Seq<(Seq<char>, JsonTree)>,
    m4: Seq<(Seq<char>, JsonTree)>,
    m5: Seq<(Seq<char>, JsonTree)>,
    m6: Seq<(Seq<char>, JsonTree)>,
    m7: Seq<(Seq<char>, JsonTree)>,
    m8: Seq<(Seq<char>, JsonTree)>,
    m9: Seq<(Seq<char>, JsonTree)>,
    m10: Seq<(Seq<char>, JsonTree)>,
    m11: Seq<(Seq<char>, JsonTree)>,
    m12: Seq<(Seq<char>, JsonTree)>,
    m13: Seq<(Seq<char>, JsonTree)>,
)
    ensures
        (m0 + m1 + m2 + m3 + m4 + m5 + m6 + m7 + m8 + m9 + m10 + m11 + m12 + m13).len() == m0.len() + m1.len() + m2.len() + m3.len() + m4.len() + m5.len() + m6.len() + m7.len() + m8.len() + m9.len() + m10.len() + m11.len() + m12.len() + m13.len(),
{
}

/// A member that may be left out is one member or none.
proof fn lemma_optional_len(name: Seq<char>, value: Option<JsonTree>, set: bool)
    requires
        value is Some <==> set,
    ensures
        optional_member(name, value).len() == one_if(set),
{
    reveal(one_if);
}

} // verus!
