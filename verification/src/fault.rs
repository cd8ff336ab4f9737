//! What can be wrong with a record on the wire, and in which order it is reported: the
//! fields of an object in the order of their keys, those of an array in their own order,
//! then what is missing, then what is too much.

use crate::json;
use crate::json::{slot_of, tag_of, Json, JsonNumber, JsonTree};
use crate::output;
use crate::output::BlockError;
use crate::text;
use crate::text::decimal_of;
use vstd::prelude::*;

verus! {

/// What stands where something else is wanted.
#[derive(Debug, Clone, PartialEq, Eq)]
pub enum Found {
    Null,
    Bool(bool),
    Unsigned(u64),
    Negative(i64),
    Float { digits: String },
    Text { text: String },
    Array,
    Object,
}

/// What was found, as a value.
pub enum FoundView {
    Null,
    Bool(bool),
    Unsigned(u64),
    Negative(i64),
    Float { digits: Seq<char> },
    Text { text: Seq<char> },
    Array,
    Object,
}

impl View for Found {
    type V = FoundView;

    open spec fn view(&self) -> FoundView {
        match *self {
            Found::Null => FoundView::Null,
            Found::Bool(b) => FoundView::Bool(b),
            Found::Unsigned(n) => FoundView::Unsigned(n),
            Found::Negative(n) => FoundView::Negative(n),
            Found::Float { digits } => FoundView::Float { digits: digits@ },
            Found::Text { text } => FoundView::Text { text: text@ },
            Found::Array => FoundView::Array,
            Found::Object => FoundView::Object,
        }
    }
}

/// What a value is.
pub open spec fn found(value: JsonTree) -> FoundView {
    match value {
        JsonTree::Null => FoundView::Null,
        JsonTree::Bool(b) => FoundView::Bool(b),
        JsonTree::Number(json::NumberView::Unsigned(n)) => FoundView::Unsigned(n),
        JsonTree::Number(json::NumberView::Negative(n)) => FoundView::Negative(n),
        JsonTree::Number(json::NumberView::Float { digits }) => FoundView::Float { digits },
        JsonTree::String(text) => FoundView::Text { text },
        JsonTree::Array(_) => FoundView::Array,
        JsonTree::Object(_) => FoundView::Object,
    }
}

/// What a value is.
pub fn found_in(value: &Json) -> (what: Found)
    ensures
        what@ == found(value@),
{
    match value {
        Json::Null => Found::Null,
        Json::Bool(b) => Found::Bool(*b),
        Json::Number(n) => match n {
            JsonNumber::Unsigned(n) => Found::Unsigned(*n),
            JsonNumber::Negative(n) => Found::Negative(*n),
            JsonNumber::Float { digits } => Found::Float { digits: digits.clone() },
        },
        Json::String(text) => Found::Text { text: text.clone() },
        Json::Array(_) => Found::Array,
        Json::Object(_) => Found::Object,
    }
}

/// How `Debug` writes a string: in quotes, with escapes.
pub uninterp spec fn debug_text(text: Seq<char>) -> Seq<char>;

/// `Debug` of `str`, through `format!`. Claimed is only that what it writes depends on the
/// string alone; how it escapes a given character is left unsaid.
#[verifier::external_body]
fn debug_of(text: &str) -> (written: String)
    ensures
        written@ == debug_text(text@),
{
    format!("{:?}", text)
}

/// The words for what was found.
pub open spec fn unexpected(found: FoundView) -> Seq<char> {
    match found {
        FoundView::Null => "null"@,
        FoundView::Bool(b) => if b {
            "boolean `true`"@
        } else {
            "boolean `false`"@
        },
        FoundView::Unsigned(n) => "integer `"@ + text::decimal(n as nat) + "`"@,
        FoundView::Negative(n) => if n < 0 {
            "integer `-"@ + text::decimal((-n) as nat) + "`"@
        } else {
            "integer `"@ + text::decimal(n as nat) + "`"@
        },
        FoundView::Float { digits } => "floating point `"@ + digits + "`"@,
        FoundView::Text { text } => "string "@ + debug_text(text),
        FoundView::Array => "sequence"@,
        FoundView::Object => "map"@,
    }
}

impl Found {
    /// The words for what was found.
    pub fn words(&self) -> (words: String)
        ensures
            words@ == unexpected(self@),
    {
        match self {
            Found::Null => "null".to_owned(),
            Found::Bool(b) => if *b {
                "boolean `true`".to_owned()
            } else {
                "boolean `false`".to_owned()
            },
            Found::Unsigned(n) => {
                let mut words = "integer `".to_owned();
                words.append(decimal_of(*n).as_str());
                words.append("`");
                words
            },
            Found::Negative(n) => if *n < 0 {
                let magnitude: u64 = (-(*n as i128)) as u64;
                let mut words = "integer `-".to_owned();
                words.append(decimal_of(magnitude).as_str());
                words.append("`");
                words
            } else {
                let mut words = "integer `".to_owned();
                words.append(decimal_of(*n as u64).as_str());
                words.append("`");
                words
            },
            Found::Float { digits } => {
                let mut words = "floating point `".to_owned();
                words.append(digits.as_str());
                words.append("`");
                words
            },
            Found::Text { text } => {
                let mut words = "string ".to_owned();
                words.append(debug_of(text.as_str()).as_str());
                words
            },
            Found::Array => "sequence".to_owned(),
            Found::Object => "map".to_owned(),
        }
    }
}

/// Why an answer or an event cannot be read.
#[derive(Debug, Clone, PartialEq, Eq)]
pub enum DecodeError {
    /// A block of the content cannot be read.
    Content(BlockError),
    /// An object lacks a field.
    MissingField { field: String },
    /// Something of another kind stands where `expected` is wanted.
    InvalidType { found: Found, expected: String },
    /// A value of the right kind is not one of those that are wanted.
    InvalidValue { found: Found, expected: String },
    /// An array is too short or too long.
    InvalidLength { len: usize, expected: String },
    /// The type is none of those that there are.
    UnknownVariant { name: String, expected: String },
}

/// An error by what its fields hold.
pub enum DecodeErrorView {
    Content(output::BlockErrorView),
    MissingField { field: Seq<char> },
    InvalidType { found: FoundView, expected: Seq<char> },
    InvalidValue { found: FoundView, expected: Seq<char> },
    InvalidLength { len: int, expected: Seq<char> },
    UnknownVariant { name: Seq<char>, expected: Seq<char> },
}

impl View for DecodeError {
    type V = DecodeErrorView;

    open spec fn view(&self) -> DecodeErrorView {
        match *self {
            DecodeError::Content(e) => DecodeErrorView::Content(e@),
            DecodeError::MissingField { field } => DecodeErrorView::MissingField { field: field@ },
            DecodeError::InvalidType { found, expected } => DecodeErrorView::InvalidType {
                found: found@,
                expected: expected@,
            },
            DecodeError::InvalidValue { found, expected } => DecodeErrorView::InvalidValue {
                found: found@,
                expected: expected@,
            },
            DecodeError::InvalidLength { len, expected } => DecodeErrorView::InvalidLength {
                len: len as int,
                expected: expected@,
            },
            DecodeError::UnknownVariant { name, expected } => DecodeErrorView::UnknownVariant {
                name: name@,
                expected: expected@,
            },
        }
    }
}

/// The words for an error.
pub open spec fn decode_message(error: DecodeErrorView) -> Seq<char> {
    match error {
        DecodeErrorView::Content(e) => output::error_message(e),
        DecodeErrorView::MissingField { field } => "missing field `"@ + field + "`"@,
        DecodeErrorView::InvalidType { found, expected } => "invalid type: "@ + unexpected(found)
            + ", expected "@ + expected,
        DecodeErrorView::InvalidValue { found, expected } => "invalid value: "@ + unexpected(found)
            + ", expected "@ + expected,
        DecodeErrorView::InvalidLength { len, expected } => "invalid length "@ + text::decimal(
            len as nat,
        ) + ", expected "@ + expected,
        DecodeErrorView::UnknownVariant { name, expected } => "unknown variant `"@ + name
            + "`, expected "@ + expected,
    }
}

impl DecodeError {
    /// The words for this error.
    pub fn message(&self) -> (message: String)
        ensures
            message@ == decode_message(self@),
    {
        match self {
            DecodeError::Content(e) => e.message(),
            DecodeError::MissingField { field } => {
                let mut message = "missing field `".to_owned();
                message.append(field.as_str());
                message.append("`");
                message
            },
            DecodeError::InvalidType { found, expected } => {
                let mut message = "invalid type: ".to_owned();
                message.append(found.words().as_str());
                message.append(", expected ");
                message.append(expected.as_str());
                message
            },
            DecodeError::InvalidValue { found, expected } => {
                let mut message = "invalid value: ".to_owned();
                message.append(found.words().as_str());
                message.append(", expected ");
                message.append(expected.as_str());
                message
            },
            DecodeError::InvalidLength { len, expected } => {
                let mut message = "invalid length ".to_owned();
                message.append(decimal_of(*len as u64).as_str());
                message.append(", expected ");
                message.append(expected.as_str());
                message
            },
            DecodeError::UnknownVariant { name, expected } => {
                let mut message = "unknown variant `".to_owned();
                message.append(name.as_str());
                message.append("`, expected ");
                message.append(expected.as_str());
                message
            },
        }
    }
}

/// What is wrong, if anything is.
pub open spec fn fault_of(fault: Option<DecodeError>) -> Option<DecodeErrorView> {
    match fault {
        Some(e) => Some(e@),
        None => None,
    }
}

/// The first thing in a list that is wrong.
pub open spec fn first(faults: Seq<Option<DecodeErrorView>>) -> Option<DecodeErrorView>
    decreases faults.len(),
{
    if faults.len() == 0 {
        None
    } else {
        match faults[0] {
            Some(e) => Some(e),
            None => first(faults.skip(1)),
        }
    }
}

/// What is wrong, thing by thing.
pub open spec fn faults_of(faults: Seq<Option<DecodeError>>) -> Seq<Option<DecodeErrorView>> {
    Seq::new(faults.len(), |i: int| fault_of(faults[i]))
}

/// Nothing is wrong exactly where no thing in the list is.
pub proof fn lemma_no_fault(faults: Seq<Option<DecodeErrorView>>)
    ensures
        first(faults) is None <==> forall|i: int|
            0 <= i < faults.len() ==> #[trigger] faults[i] is None,
    decreases faults.len(),
{
    if faults.len() > 0 {
        let rest = faults.skip(1);
        lemma_no_fault(rest);
        assert forall|i: int| 0 <= i < rest.len() implies rest[i] == faults[i + 1] by {}
        if forall|i: int| 0 <= i < rest.len() ==> #[trigger] rest[i] is None {
            assert forall|i: int| 1 <= i < faults.len() implies #[trigger] faults[i] is None by {
                assert(rest[i - 1] is None);
            }
        }
    }
}

/// What is wrong at `n`, behind things that are not, is what is reported.
pub proof fn lemma_first_fault(faults: Seq<Option<DecodeErrorView>>, n: int)
    requires
        0 <= n < faults.len(),
        faults[n] is Some,
        forall|i: int| 0 <= i < n ==> #[trigger] faults[i] is None,
    ensures
        first(faults) == faults[n],
    decreases n,
{
    if n > 0 {
        assert(faults[0] is None);
        let rest = faults.skip(1);
        assert forall|i: int| 0 <= i < n - 1 implies #[trigger] rest[i] is None by {
            assert(faults[i + 1] is None);
        }
        lemma_first_fault(rest, n - 1);
    }
}

/// Something of another kind.
pub open spec fn wrong_type(value: JsonTree, expected: Seq<char>) -> Option<DecodeErrorView> {
    Some(DecodeErrorView::InvalidType { found: found(value), expected })
}

/// A field that is there must be a string.
pub open spec fn text_fault(raw: JsonTree, name: Seq<char>, place: int) -> Option<
    DecodeErrorView,
> {
    match json::slot(raw, name, place) {
        None => None,
        Some(JsonTree::String(_)) => None,
        Some(value) => wrong_type(value, "a string"@),
    }
}

/// A field that is there must be a string or null.
pub open spec fn optional_fault(raw: JsonTree, name: Seq<char>, place: int) -> Option<
    DecodeErrorView,
> {
    match json::slot(raw, name, place) {
        Some(JsonTree::Null) => None,
        _ => text_fault(raw, name, place),
    }
}

/// A field that is there must be a number of 32 bits.
pub open spec fn count_fault(raw: JsonTree, name: Seq<char>, place: int) -> Option<
    DecodeErrorView,
> {
    match json::slot(raw, name, place) {
        None => None,
        Some(JsonTree::Number(json::NumberView::Unsigned(n))) => if n <= u32::MAX {
            None
        } else {
            Some(
                DecodeErrorView::InvalidValue { found: FoundView::Unsigned(n), expected: "u32"@ },
            )
        },
        Some(JsonTree::Number(json::NumberView::Negative(n))) => Some(
            DecodeErrorView::InvalidValue { found: FoundView::Negative(n), expected: "u32"@ },
        ),
        Some(value) => wrong_type(value, "u32"@),
    }
}

/// A field is not there. Of an array, whose first field stands at `start`, the error says how
/// many fields there are, and what `record` wants.
pub open spec fn missing(
    raw: JsonTree,
    name: Seq<char>,
    place: int,
    start: int,
    record: Seq<char>,
) -> DecodeErrorView {
    match raw {
        JsonTree::Array(_) => DecodeErrorView::InvalidLength {
            len: place - start,
            expected: record,
        },
        _ => DecodeErrorView::MissingField { field: name },
    }
}

/// A field must be there.
pub open spec fn absent(
    raw: JsonTree,
    name: Seq<char>,
    place: int,
    start: int,
    record: Seq<char>,
) -> Option<DecodeErrorView> {
    match json::slot(raw, name, place) {
        Some(_) => None,
        None => Some(missing(raw, name, place, start, record)),
    }
}

/// An array, whose first field stands at `start`, has no more than `most` fields.
pub open spec fn too_long(
    raw: JsonTree,
    start: int,
    most: int,
    expected: Seq<char>,
) -> Option<DecodeErrorView> {
    match raw {
        JsonTree::Array(items) => if items.len() > start + most {
            Some(DecodeErrorView::InvalidLength { len: items.len() - start, expected })
        } else {
            None
        },
        _ => None,
    }
}

/// Only an object or an array is a record.
pub open spec fn no_record(raw: JsonTree, record: Seq<char>) -> Option<DecodeErrorView> {
    match raw {
        JsonTree::Object(_) => None,
        JsonTree::Array(_) => None,
        _ => wrong_type(raw, record),
    }
}

/// Something of another kind.
pub(crate) fn wrong_type_of(value: &Json, expected: &str) -> (fault: Option<DecodeError>)
    ensures
        fault_of(fault) == wrong_type(value@, expected@),
{
    Some(DecodeError::InvalidType { found: found_in(value), expected: expected.to_owned() })
}

/// A field that is there must be a string.
pub(crate) fn text_fault_of(raw: &Json, name: &str, place: usize) -> (fault: Option<DecodeError>)
    ensures
        fault_of(fault) == text_fault(raw@, name@, place as int),
{
    match slot_of(raw, name, place) {
        None => None,
        Some(Json::String(_)) => None,
        Some(value) => wrong_type_of(value, "a string"),
    }
}

/// A field that is there must be a string or null.
pub(crate) fn optional_fault_of(raw: &Json, name: &str, place: usize) -> (fault: Option<
    DecodeError,
>)
    ensures
        fault_of(fault) == optional_fault(raw@, name@, place as int),
{
    match slot_of(raw, name, place) {
        Some(Json::Null) => None,
        _ => text_fault_of(raw, name, place),
    }
}

/// A field that is there must be a number of 32 bits.
pub(crate) fn count_fault_of(raw: &Json, name: &str, place: usize) -> (fault: Option<DecodeError>)
    ensures
        fault_of(fault) == count_fault(raw@, name@, place as int),
{
    match slot_of(raw, name, place) {
        None => None,
        Some(Json::Number(JsonNumber::Unsigned(n))) => if *n <= 0xffff_ffff {
            None
        } else {
            Some(
                DecodeError::InvalidValue {
                    found: Found::Unsigned(*n),
                    expected: "u32".to_owned(),
                },
            )
        },
        Some(Json::Number(JsonNumber::Negative(n))) => Some(
            DecodeError::InvalidValue { found: Found::Negative(*n), expected: "u32".to_owned() },
        ),
        Some(value) => wrong_type_of(value, "u32"),
    }
}

/// A field is not there.
pub(crate) fn missing_in(raw: &Json, name: &str, place: usize, start: usize, record: &str) -> (error:
    DecodeError)
    requires
        start <= place,
    ensures
        error@ == missing(raw@, name@, place as int, start as int, record@),
{
    match raw {
        Json::Array(_) => DecodeError::InvalidLength {
            len: place - start,
            expected: record.to_owned(),
        },
        _ => DecodeError::MissingField { field: name.to_owned() },
    }
}

/// A field must be there.
pub(crate) fn absent_of(raw: &Json, name: &str, place: usize, start: usize, record: &str) -> (fault:
    Option<DecodeError>)
    requires
        start <= place,
    ensures
        fault_of(fault) == absent(raw@, name@, place as int, start as int, record@),
{
    match slot_of(raw, name, place) {
        Some(_) => None,
        None => Some(missing_in(raw, name, place, start, record)),
    }
}

/// An array has no more than `most` fields.
pub(crate) fn too_long_of(raw: &Json, start: usize, most: usize, expected: &str) -> (fault: Option<
    DecodeError,
>)
    requires
        start + most <= usize::MAX,
    ensures
        fault_of(fault) == too_long(raw@, start as int, most as int, expected@),
{
    match raw {
        Json::Array(items) => {
            let len: usize = items.len();
            if len > start + most {
                Some(DecodeError::InvalidLength { len: len - start, expected: expected.to_owned() })
            } else {
                None
            }
        },
        _ => None,
    }
}

/// Only an object or an array is a record.
pub(crate) fn no_record_of(raw: &Json, record: &str) -> (fault: Option<DecodeError>)
    ensures
        fault_of(fault) == no_record(raw@, record@),
{
    match raw {
        Json::Object(_) => None,
        Json::Array(_) => None,
        _ => wrong_type_of(raw, record),
    }
}

/// The first thing in a list that is wrong.
pub(crate) fn first_in(faults: Vec<Option<DecodeError>>) -> (fault: Option<DecodeError>)
    ensures
        fault_of(fault) == first(faults_of(faults@)),
{
    let ghost all = faults_of(faults@);
    assert(all.skip(0) =~= all);
    for fault in it: faults
        invariant
            it.seq() == faults@,
            all == faults_of(faults@),
            first(all) == first(all.skip(it.index())),
    {
        proof {
            let k: int = it.index();
            assert(all.skip(k)[0] == fault_of(fault));
            assert(all.skip(k).skip(1) =~= all.skip(k + 1));
        }
        if fault.is_some() {
            return fault;
        }
    }
    None
}

/// The types that a record can have, and the words for what else it may be.
pub struct Variants {
    pub names: Vec<String>,
    /// A type may be given by its place among the names.
    pub numbered: bool,
    /// What the record is.
    pub record: String,
    /// The types by their names.
    pub one_of: String,
    /// The types by their places.
    pub indices: String,
}

/// The types that a record can have, as a value.
pub struct VariantsView {
    pub names: Seq<Seq<char>>,
    pub numbered: bool,
    pub record: Seq<char>,
    pub one_of: Seq<char>,
    pub indices: Seq<char>,
}

impl View for Variants {
    type V = VariantsView;

    open spec fn view(&self) -> VariantsView {
        VariantsView {
            names: json::name_views(self.names@),
            numbered: self.numbered,
            record: self.record@,
            one_of: self.one_of@,
            indices: self.indices@,
        }
    }
}

impl VariantsView {
    /// The type of a record, if it is one of these.
    pub open spec fn tag(self, raw: JsonTree) -> Option<Seq<char>> {
        if self.numbered {
            json::tag(raw, self.names)
        } else {
            json::named_tag(raw, self.names)
        }
    }

    /// What is wrong with the type of a record, if anything is.
    pub open spec fn tag_fault(self, raw: JsonTree) -> Option<DecodeErrorView> {
        match (no_record(raw, self.record), json::slot(raw, "type"@, 0)) {
            (Some(e), _) => Some(e),
            (None, None) => Some(DecodeErrorView::MissingField { field: "type"@ }),
            (None, Some(value)) => if self.tag(raw) is Some {
                None
            } else {
                match value {
                    JsonTree::String(name) => Some(
                        DecodeErrorView::UnknownVariant { name, expected: self.one_of },
                    ),
                    JsonTree::Number(json::NumberView::Unsigned(n)) if self.numbered => Some(
                        DecodeErrorView::InvalidValue {
                            found: FoundView::Unsigned(n),
                            expected: self.indices,
                        },
                    ),
                    _ => wrong_type(value, "variant identifier"@),
                }
            },
        }
    }
}

impl Variants {
    /// The place of the type of a record, or what is wrong with it.
    pub(crate) fn place(&self, raw: &Json) -> (result: Result<usize, DecodeError>)
        ensures
            match result {
                Ok(i) => {
                    &&& self@.tag_fault(raw@) is None
                    &&& i < self.names@.len()
                    &&& self@.tag(raw@) == Some(self.names@[i as int]@)
                },
                Err(e) => self@.tag_fault(raw@) == Some(e@),
            },
    {
        if let Some(e) = no_record_of(raw, self.record.as_str()) {
            return Err(e);
        }
        let value = match slot_of(raw, "type", 0) {
            Some(value) => value,
            None => return Err(DecodeError::MissingField { field: "type".to_owned() }),
        };
        match value {
            Json::String(name) => match tag_of(raw, &self.names) {
                Some(i) => Ok(i),
                None => Err(
                    DecodeError::UnknownVariant {
                        name: name.clone(),
                        expected: self.one_of.clone(),
                    },
                ),
            },
            Json::Number(JsonNumber::Unsigned(n)) => if self.numbered {
                match tag_of(raw, &self.names) {
                    Some(i) => Ok(i),
                    None => Err(
                        DecodeError::InvalidValue {
                            found: Found::Unsigned(*n),
                            expected: self.indices.clone(),
                        },
                    ),
                }
            } else {
                Err(
                    DecodeError::InvalidType {
                        found: Found::Unsigned(*n),
                        expected: "variant identifier".to_owned(),
                    },
                )
            },
            _ => Err(
                DecodeError::InvalidType {
                    found: found_in(value),
                    expected: "variant identifier".to_owned(),
                },
            ),
        }
    }
}

/// What is found is what stands there, with its value.
pub proof fn law_found_is_what_stands_there(value: Json, what: Found)
    requires
        what@ == found(value@),
    ensures
        match value {
            Json::Null => what is Null,
            Json::Bool(b) => what == Found::Bool(b),
            Json::Number(JsonNumber::Unsigned(n)) => what == Found::Unsigned(n),
            Json::Number(JsonNumber::Negative(n)) => what == Found::Negative(n),
            Json::Number(JsonNumber::Float { digits }) => what is Float && what->digits@ == digits@,
            Json::String(text) => what is Text && what->text@ == text@,
            Json::Array(_) => what is Array,
            Json::Object(_) => what is Object,
        },
{
}

/// The words for what was found say its kind and its value.
pub proof fn law_found_in_words(what: Found)
    ensures
        match what {
            Found::Null => unexpected(what@) == "null"@,
            Found::Bool(b) => unexpected(what@) == (if b {
                "boolean `true`"@
            } else {
                "boolean `false`"@
            }),
            Found::Unsigned(n) => unexpected(what@) == "integer `"@ + text::decimal(n as nat)
                + "`"@,
            Found::Negative(n) => n < 0 ==> unexpected(what@) == "integer `-"@ + text::decimal(
                (-n) as nat,
            ) + "`"@,
            Found::Float { digits } => unexpected(what@) == "floating point `"@ + digits@ + "`"@,
            Found::Text { text } => unexpected(what@) == "string "@ + debug_text(text@),
            Found::Array => unexpected(what@) == "sequence"@,
            Found::Object => unexpected(what@) == "map"@,
        },
{
}

/// The words for an error say what is missing, or what was found and what was wanted.
pub proof fn law_decode_error_in_words(error: DecodeError)
    ensures
        decode_message(error@) == (match error {
            DecodeError::Content(e) => output::error_message(e@),
            DecodeError::MissingField { field } => "missing field `"@ + field@ + "`"@,
            DecodeError::InvalidType { found, expected } => "invalid type: "@ + unexpected(found@)
                + ", expected "@ + expected@,
            DecodeError::InvalidValue { found, expected } => "invalid value: "@ + unexpected(found@)
                + ", expected "@ + expected@,
            DecodeError::InvalidLength { len, expected } => "invalid length "@ + text::decimal(
                len as nat,
            ) + ", expected "@ + expected@,
            DecodeError::UnknownVariant { name, expected } => "unknown variant `"@ + name@
                + "`, expected "@ + expected@,
        }),
{
}

/// What is wrong with one field: a text must be a string, a text that may be left out a
/// string or null, a count a number of 32 bits. A field that is not there is not wrong.
pub proof fn law_fault_of_one_field(raw: JsonTree, name: Seq<char>, place: int)
    ensures
        match json::slot(raw, name, place) {
            None => {
                &&& text_fault(raw, name, place) is None
                &&& optional_fault(raw, name, place) is None
                &&& count_fault(raw, name, place) is None
            },
            Some(value) => {
                &&& text_fault(raw, name, place) == (if value is String {
                    None
                } else {
                    Some(
                        DecodeErrorView::InvalidType {
                            found: found(value),
                            expected: "a string"@,
                        },
                    )
                })
                &&& optional_fault(raw, name, place) == (if value is String || value is Null {
                    None
                } else {
                    Some(
                        DecodeErrorView::InvalidType {
                            found: found(value),
                            expected: "a string"@,
                        },
                    )
                })
                &&& count_fault(raw, name, place) == (match value {
                    JsonTree::Number(json::NumberView::Unsigned(n)) if n <= 0xffff_ffff => None,
                    JsonTree::Number(json::NumberView::Float { .. }) => Some(
                        DecodeErrorView::InvalidType { found: found(value), expected: "u32"@ },
                    ),
                    JsonTree::Number(_) => Some(
                        DecodeErrorView::InvalidValue { found: found(value), expected: "u32"@ },
                    ),
                    _ => Some(
                        DecodeErrorView::InvalidType { found: found(value), expected: "u32"@ },
                    ),
                })
            },
        },
{
}

/// What is reported is one of the things that are wrong, and nothing before it is.
pub proof fn lemma_reported_fault(faults: Seq<Option<DecodeErrorView>>) -> (n: int)
    requires
        first(faults) is Some,
    ensures
        0 <= n < faults.len(),
        faults[n] == first(faults),
        forall|i: int| 0 <= i < n ==> #[trigger] faults[i] is None,
    decreases faults.len(),
{
    if faults[0] is Some {
        0
    } else {
        let rest = faults.skip(1);
        let n: int = lemma_reported_fault(rest);
        assert forall|i: int| 0 <= i < n + 1 implies #[trigger] faults[i] is None by {
            if i > 0 {
                assert(rest[i - 1] is None);
            }
        }
        n + 1
    }
}

/// An error holds what it says.
pub proof fn law_error_is_made_of_its_parts(error: DecodeError)
    ensures
        match error {
            DecodeError::Content(e) => error@ == DecodeErrorView::Content(e@),
            DecodeError::MissingField { field } => error@ == (DecodeErrorView::MissingField {
                field: field@,
            }),
            DecodeError::InvalidType { found, expected } => error@ == (
            DecodeErrorView::InvalidType { found: found@, expected: expected@ }),
            DecodeError::InvalidValue { found, expected } => error@ == (
            DecodeErrorView::InvalidValue { found: found@, expected: expected@ }),
            DecodeError::InvalidLength { len, expected } => error@ == (
            DecodeErrorView::InvalidLength { len: len as int, expected: expected@ }),
            DecodeError::UnknownVariant { name, expected } => error@ == (
            DecodeErrorView::UnknownVariant { name: name@, expected: expected@ }),
        },
{
}

/// What is wrong with a record as a whole: it is neither an object nor an array, a field is not
/// there, or an array has too many.
pub proof fn law_fault_of_a_record(
    raw: JsonTree,
    name: Seq<char>,
    place: int,
    start: int,
    most: int,
    words: Seq<char>,
)
    ensures
        match raw {
            JsonTree::Object(_) => {
                &&& no_record(raw, words) is None
                &&& too_long(raw, start, most, words) is None
                &&& missing(raw, name, place, start, words) == (DecodeErrorView::MissingField {
                    field: name,
                })
            },
            JsonTree::Array(items) => {
                &&& no_record(raw, words) is None
                &&& too_long(raw, start, most, words) == (if items.len() > start + most {
                    Some(
                        DecodeErrorView::InvalidLength {
                            len: items.len() - start,
                            expected: words,
                        },
                    )
                } else {
                    None
                })
                &&& missing(raw, name, place, start, words) == (DecodeErrorView::InvalidLength {
                    len: place - start,
                    expected: words,
                })
            },
            _ => no_record(raw, words) == Some(
                DecodeErrorView::InvalidType { found: found(raw), expected: words },
            ),
        },
{
}

} // verus!
