//! Parsed JSON documents: the parser and printer that read and write them,
//! and the tree that the viewer draws.

use crate::text::result_view;
use vstd::prelude::*;
use vstd::string::StringExecFns;

verus! {

/// A JSON value as the viewer reads it. A number is held as the text it is
/// shown with; the members of an object stand in the order of the document.
#[derive(Debug, PartialEq, Eq)]
pub enum JsonValue {
    Null,
    Bool(bool),
    Number(String),
    Text(String),
    Array(Vec<JsonValue>),
    Object(Vec<(String, JsonValue)>),
}

/// The mathematical form of a [`JsonValue`].
pub enum JsonView {
    Null,
    Bool(bool),
    Number(Seq<char>),
    Text(Seq<char>),
    Array(Seq<JsonView>),
    Object(Seq<(Seq<char>, JsonView)>),
}

impl View for JsonValue {
    type V = JsonView;

    open spec fn view(&self) -> JsonView
        decreases self,
    {
        match self {
            JsonValue::Null => JsonView::Null,
            JsonValue::Bool(b) => JsonView::Bool(*b),
            JsonValue::Number(n) => JsonView::Number(n@),
            JsonValue::Text(s) => JsonView::Text(s@),
            JsonValue::Array(items) => JsonView::Array(
                Seq::new(
                    items@.len(),
                    |i: int|
                        if 0 <= i < items@.len() {
                            items@[i]@
                        } else {
                            arbitrary()
                        },
                ),
            ),
            JsonValue::Object(members) => JsonView::Object(
                Seq::new(
                    members@.len(),
                    |i: int|
                        if 0 <= i < members@.len() {
                            (members@[i].0@, members@[i].1@)
                        } else {
                            arbitrary()
                        },
                ),
            ),
        }
    }
}

/// The elements of an array as values.
pub open spec fn element_views(items: Seq<JsonValue>) -> Seq<JsonView> {
    Seq::new(items.len(), |i: int| items[i]@)
}

/// The members of an object as values: each name with the view of its value.
pub open spec fn member_views(members: Seq<(String, JsonValue)>) -> Seq<(Seq<char>, JsonView)> {
    Seq::new(members.len(), |i: int| (members[i].0@, members[i].1@))
}

/// The view of an array holds the views of its elements, that of an object
/// the views of its members.
pub proof fn lemma_container_view(value: JsonValue)
    ensures
        value matches JsonValue::Array(items) ==> value@ == JsonView::Array(element_views(items@)),
        value matches JsonValue::Object(members) ==> value@ == JsonView::Object(
            member_views(members@),
        ),
{
    reveal_with_fuel(<JsonValue as View>::view, 2);
    match value {
        JsonValue::Array(items) => {
            assert(value@->Array_0 =~= element_views(items@));
        },
        JsonValue::Object(members) => {
            assert(value@->Object_0 =~= member_views(members@));
        },
        _ => {},
    }
}

/// A document as `serde_json` holds it. Opaque here: what the viewer reads
/// of it is its [`value_tree`].
#[verifier::external_type_specification]
#[verifier::external_body]
pub struct ExValue(serde_json::Value);

/// The error of `serde_json`'s parser and printer. Opaque here: what the
/// viewer reads of it is its [`error_message`].
#[verifier::external_type_specification]
#[verifier::external_body]
pub struct ExError(serde_json::Error);

/// One level of a parsed document: what kind of value it is, and the values
/// that it holds, not yet taken apart themselves.
pub enum Shape<'a> {
    Null,
    Bool(bool),
    Number(String),
    Text(String),
    Array(Vec<&'a serde_json::Value>),
    Object(Vec<(String, &'a serde_json::Value)>),
}

/// The mathematical form of a [`Shape`].
pub enum ShapeView {
    Null,
    Bool(bool),
    Number(Seq<char>),
    Text(Seq<char>),
    Array(Seq<serde_json::Value>),
    Object(Seq<(Seq<char>, serde_json::Value)>),
}

impl<'a> View for Shape<'a> {
    type V = ShapeView;

    open spec fn view(&self) -> ShapeView {
        match self {
            Shape::Null => ShapeView::Null,
            Shape::Bool(b) => ShapeView::Bool(*b),
            Shape::Number(n) => ShapeView::Number(n@),
            Shape::Text(s) => ShapeView::Text(s@),
            Shape::Array(items) => ShapeView::Array(Seq::new(items@.len(), |i: int| *items@[i])),
            Shape::Object(members) => ShapeView::Object(
                Seq::new(members@.len(), |i: int| (members@[i].0@, *members@[i].1)),
            ),
        }
    }
}

/// What `serde_json::from_str` makes of a text: the document, or the
/// parser's error.
pub uninterp spec fn parsed_json(text: Seq<char>) -> Result<serde_json::Value, serde_json::Error>;

/// What `serde_json::to_string_pretty` writes for a document.
pub uninterp spec fn pretty_json(value: serde_json::Value) -> Result<Seq<char>, serde_json::Error>;

/// What a `serde_json::Error` shows as its message.
pub uninterp spec fn error_message(error: serde_json::Error) -> Seq<char>;

/// What a `serde_json::Value` holds at its top: which kind of value it is,
/// and the text, or the elements, or the members with their names.
pub uninterp spec fn value_shape(value: serde_json::Value) -> ShapeView;

/// How many values deep a `serde_json::Value` is: what it holds is less deep
/// than itself.
pub uninterp spec fn value_depth(value: serde_json::Value) -> nat;

/// Every value that the shape holds is less than `depth` deep.
pub open spec fn parts_less_deep(shape: ShapeView, depth: nat) -> bool {
    match shape {
        ShapeView::Array(items) => forall|i: int|
            0 <= i < items.len() ==> value_depth(#[trigger] items[i]) < depth,
        ShapeView::Object(members) => forall|i: int|
            0 <= i < members.len() ==> value_depth((#[trigger] members[i]).1) < depth,
        _ => true,
    }
}

/// What a parsed document holds, as a tree: its shape, with every element
/// and member taken apart in turn.
pub open spec fn value_tree(value: serde_json::Value) -> JsonView
    decreases value_depth(value),
{
    match value_shape(value) {
        ShapeView::Null => JsonView::Null,
        ShapeView::Bool(b) => JsonView::Bool(b),
        ShapeView::Number(n) => JsonView::Number(n),
        ShapeView::Text(s) => JsonView::Text(s),
        ShapeView::Array(items) => JsonView::Array(
            Seq::new(
                items.len(),
                |i: int|
                    if 0 <= i < items.len() && value_depth(items[i]) < value_depth(value) {
                        value_tree(items[i])
                    } else {
                        arbitrary()
                    },
            ),
        ),
        ShapeView::Object(members) => JsonView::Object(
            Seq::new(
                members.len(),
                |i: int|
                    if 0 <= i < members.len() && value_depth(members[i].1) < value_depth(value) {
                        (members[i].0, value_tree(members[i].1))
                    } else {
                        arbitrary()
                    },
            ),
        ),
    }
}

/// Calls `serde_json::from_str` for a `serde_json::Value`. Trusted: the
/// outcome depends on the text alone.
#[verifier::external_body]
fn parse_value(text: &str) -> (parsed: Result<serde_json::Value, serde_json::Error>)
    ensures
        parsed == parsed_json(text@),
{
    serde_json::from_str::<serde_json::Value>(text)
}

/// Calls `serde_json::to_string_pretty`. Trusted: the outcome depends on the
/// document alone.
#[verifier::external_body]
fn pretty_text(value: &serde_json::Value) -> (pretty: Result<String, serde_json::Error>)
    ensures
        match pretty {
            Ok(text) => pretty_json(*value) == Ok::<Seq<char>, serde_json::Error>(text@),
            Err(error) => pretty_json(*value) == Err::<Seq<char>, serde_json::Error>(error),
        },
{
    serde_json::to_string_pretty(value)
}

/// Calls `to_string` on a `serde_json::Error`, which writes it as its
/// `Display` does. Trusted: the message depends on the error alone.
#[verifier::external_body]
fn error_text(error: &serde_json::Error) -> (message: String)
    ensures
        message@ == error_message(*error),
{
    error.to_string()
}

/// Takes a `serde_json::Value` apart, one level deep: the variant, with a
/// number as the text that `to_string` gives for it, a string as it is, the
/// elements of an array, and the members of an object with their names in
/// the order in which the map hands them out. Trusted: the shape depends on
/// the document alone, and each element or member is less deep than the
/// value that holds it.
#[verifier::external_body]
fn shape_of<'a>(value: &'a serde_json::Value) -> (shape: Shape<'a>)
    ensures
        shape@ == value_shape(*value),
        parts_less_deep(shape@, value_depth(*value)),
{
    match value {
        serde_json::Value::Null => Shape::Null,
        serde_json::Value::Bool(b) => Shape::Bool(*b),
        serde_json::Value::Number(n) => Shape::Number(n.to_string()),
        serde_json::Value::String(s) => Shape::Text(s.clone()),
        serde_json::Value::Array(items) => Shape::Array(items.iter().collect()),
        serde_json::Value::Object(members) => Shape::Object(
            members.iter().map(|(key, member)| (key.clone(), member)).collect(),
        ),
    }
}

/// The elements of a parsed array, each as a tree.
fn trees_of(owner: &serde_json::Value, items: &Vec<&serde_json::Value>) -> (trees: Vec<JsonValue>)
    requires
        forall|i: int|
            0 <= i < items@.len() ==> value_depth(*(#[trigger] items@[i])) < value_depth(*owner),
    ensures
        trees@.len() == items@.len(),
        forall|i: int| 0 <= i < items@.len() ==> (#[trigger] trees@[i])@ == value_tree(*items@[i]),
    decreases value_depth(*owner), 0nat,
{
    let mut trees: Vec<JsonValue> = Vec::new();
    let mut i: usize = 0;
    while i < items.len()
        invariant
            i <= items@.len(),
            trees@.len() == i,
            forall|k: int|
                0 <= k < items@.len() ==> value_depth(*(#[trigger] items@[k])) < value_depth(
                    *owner,
                ),
            forall|k: int| 0 <= k < i ==> (#[trigger] trees@[k])@ == value_tree(*items@[k]),
        decreases items@.len() - i,
    {
        let tree = tree_of(items[i]);
        trees.push(tree);
        i = i + 1;
    }
    trees
}

/// The members of a parsed object, each name with its value as a tree.
fn member_trees_of(owner: &serde_json::Value, members: Vec<(String, &serde_json::Value)>) -> (trees:
    Vec<(String, JsonValue)>)
    requires
        forall|i: int|
            0 <= i < members@.len() ==> value_depth(*(#[trigger] members@[i]).1) < value_depth(
                *owner,
            ),
    ensures
        trees@.len() == members@.len(),
        forall|i: int|
            0 <= i < members@.len() ==> (#[trigger] trees@[i]).0@ == members@[i].0@ && trees@[i].1@
                == value_tree(*members@[i].1),
    decreases value_depth(*owner), 0nat,
{
    let mut trees: Vec<(String, JsonValue)> = Vec::new();
    let mut i: usize = 0;
    while i < members.len()
        invariant
            i <= members@.len(),
            trees@.len() == i,
            forall|k: int|
                0 <= k < members@.len() ==> value_depth(*(#[trigger] members@[k]).1) < value_depth(
                    *owner,
                ),
            forall|k: int|
                0 <= k < i ==> (#[trigger] trees@[k]).0@ == members@[k].0@ && trees@[k].1@
                    == value_tree(*members@[k].1),
        decreases members@.len() - i,
    {
        let tree = tree_of(members[i].1);
        trees.push((members[i].0.clone(), tree));
        i = i + 1;
    }
    trees
}

/// Copies a parsed document into the tree that the viewer draws.
pub fn tree_of(value: &serde_json::Value) -> (tree: JsonValue)
    ensures
        tree@ == value_tree(*value),
    decreases value_depth(*value), 1nat,
{
    let shape = shape_of(value);
    let ghost parts = shape@;
    match shape {
        Shape::Null => JsonValue::Null,
        Shape::Bool(b) => JsonValue::Bool(b),
        Shape::Number(n) => JsonValue::Number(n),
        Shape::Text(s) => JsonValue::Text(s),
        Shape::Array(items) => {
            assert forall|i: int| 0 <= i < items@.len() implies value_depth(
                *(#[trigger] items@[i]),
            ) < value_depth(*value) by {
                assert(parts->Array_0[i] == *items@[i]);
            }
            let trees = trees_of(value, &items);
            let tree = JsonValue::Array(trees);
            proof {
                lemma_container_view(tree);
                assert(tree@->Array_0 =~= value_tree(*value)->Array_0);
            }
            tree
        },
        Shape::Object(members) => {
            assert forall|i: int| 0 <= i < members@.len() implies value_depth(
                *(#[trigger] members@[i]).1,
            ) < value_depth(*value) by {
                assert(parts->Object_0[i] == (members@[i].0@, *members@[i].1));
            }
            let trees = member_trees_of(value, members);
            let tree = JsonValue::Object(trees);
            proof {
                lemma_container_view(tree);
                assert(tree@->Object_0 =~= value_tree(*value)->Object_0);
            }
            tree
        },
    }
}

/// The message for a text that is not JSON.
pub open spec fn invalid_json(cause: Seq<char>) -> Seq<char> {
    "Invalid JSON input: "@ + cause
}

/// The message for a text that is not JSON, given what the parser said.
pub fn invalid_json_message(cause: &str) -> (message: String)
    ensures
        message@ == invalid_json(cause@),
{
    let mut message = String::from_str("Invalid JSON input: ");
    message.append(cause);
    message
}

/// What [`parse_json_to_value`] returns for a text.
pub open spec fn parse_outcome(text: Seq<char>) -> Result<serde_json::Value, Seq<char>> {
    match parsed_json(text) {
        Ok(value) => Ok(value),
        Err(error) => Err(invalid_json(error_message(error))),
    }
}

/// Parses a text as one JSON document. A text that is not JSON, as a whole,
/// gives the parser's complaint behind the words `Invalid JSON input: `.
pub fn parse_json_to_value(json_string: &str) -> (parsed: Result<serde_json::Value, String>)
    ensures
        match parsed {
            Ok(value) => parse_outcome(json_string@) == Ok::<serde_json::Value, Seq<char>>(value),
            Err(message) => parse_outcome(json_string@) == Err::<serde_json::Value, Seq<char>>(
                message@,
            ),
        },
{
    match parse_value(json_string) {
        Ok(value) => Ok(value),
        Err(error) => {
            let cause = error_text(&error);
            Err(invalid_json_message(cause.as_str()))
        },
    }
}

/// What reading a text as a document comes to.
#[derive(Debug, PartialEq, Eq)]
pub enum Reading {
    /// The text is JSON: the document, and the text that it is printed as.
    Document { value: serde_json::Value, pretty: String },
    /// The text is JSON, but the document could not be printed.
    Unprintable { message: String },
    /// The text is not JSON.
    Invalid { message: String },
}

/// The mathematical form of a [`Reading`].
pub enum ReadingView {
    Document { value: serde_json::Value, pretty: Seq<char> },
    Unprintable { message: Seq<char> },
    Invalid { message: Seq<char> },
}

impl View for Reading {
    type V = ReadingView;

    open spec fn view(&self) -> ReadingView {
        match self {
            Reading::Document { value, pretty } => ReadingView::Document {
                value: *value,
                pretty: pretty@,
            },
            Reading::Unprintable { message } => ReadingView::Unprintable { message: message@ },
            Reading::Invalid { message } => ReadingView::Invalid { message: message@ },
        }
    }
}

/// The message for a document that could not be printed.
pub open spec fn unprintable_json(cause: Seq<char>) -> Seq<char> {
    "Error pretty-printing JSON: "@ + cause
}

/// What reading a document comes to, given what the printer made of it.
pub open spec fn printed_outcome(
    value: serde_json::Value,
    printed: Result<Seq<char>, Seq<char>>,
) -> ReadingView {
    match printed {
        Ok(pretty) => ReadingView::Document { value, pretty },
        Err(cause) => ReadingView::Unprintable { message: unprintable_json(cause) },
    }
}

/// What the printer makes of a document: the text, or the message of its
/// error.
pub open spec fn print_outcome(value: serde_json::Value) -> Result<Seq<char>, Seq<char>> {
    match pretty_json(value) {
        Ok(pretty) => Ok(pretty),
        Err(error) => Err(error_message(error)),
    }
}

/// What [`read_document`] returns for a text.
pub open spec fn read_outcome(text: Seq<char>) -> ReadingView {
    match parsed_json(text) {
        Ok(value) => printed_outcome(value, print_outcome(value)),
        Err(error) => ReadingView::Invalid { message: invalid_json(error_message(error)) },
    }
}

/// Prints a document with line breaks and an indentation of two spaces per
/// level. Where the printer fails, its complaint is returned.
pub fn print_document(value: &serde_json::Value) -> (printed: Result<String, String>)
    ensures
        result_view(printed) == print_outcome(*value),
{
    match pretty_text(value) {
        Ok(pretty) => Ok(pretty),
        Err(error) => Err(error_text(&error)),
    }
}

/// A parsed document together with what printing it came to.
pub fn printed_document(value: serde_json::Value, printed: Result<String, String>) -> (reading:
    Reading)
    ensures
        reading@ == printed_outcome(value, result_view(printed)),
{
    match printed {
        Ok(pretty) => Reading::Document { value, pretty },
        Err(cause) => {
            let mut message = String::from_str("Error pretty-printing JSON: ");
            message.append(cause.as_str());
            Reading::Unprintable { message }
        },
    }
}

/// Reads a text as one JSON document and prints the document anew.
pub fn read_document(text: &str) -> (reading: Reading)
    ensures
        reading@ == read_outcome(text@),
{
    match parse_json_to_value(text) {
        Ok(value) => {
            let printed = print_document(&value);
            printed_document(value, printed)
        },
        Err(message) => Reading::Invalid { message },
    }
}

} // verus!
