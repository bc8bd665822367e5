//! The collapsible tree of a parsed document: for each value what is shown
//! for it, under which identity, and which parts of its labels match the
//! search.

use crate::highlight::{create_highlighted_layout_sections, sections_of, LayoutSection};
use crate::span::{covers, on_char_boundaries};
use crate::text::{decimal, decimal_text};
use crate::value::{
    element_views, lemma_container_view, member_views, tree_of, value_tree, JsonValue, JsonView,
};
use vstd::prelude::*;
use vstd::string::StringExecFns;
use vstd::utf8::encode_utf8;

verus! {

/// What a label stands for; the window picks its colour by it.
#[derive(Clone, Copy, Debug, PartialEq, Eq, Structural)]
pub enum LabelKind {
    /// The name of an object's member.
    Key,
    /// A string value.
    Text,
    /// A number.
    Number,
    /// `true` or `false`.
    Bool,
    /// `null`.
    Null,
}

/// The two kinds of value that hold other values.
#[derive(Clone, Copy, Debug, PartialEq, Eq, Structural)]
pub enum GroupKind {
    Object,
    Array,
}

/// One piece of text in the tree, with the sections in which it is drawn.
#[derive(Debug, PartialEq, Eq)]
pub struct Label {
    pub text: String,
    pub sections: Vec<LayoutSection>,
    pub kind: LabelKind,
}

/// The mathematical form of a [`Label`].
pub struct LabelView {
    pub text: Seq<char>,
    pub sections: Seq<LayoutSection>,
    pub kind: LabelKind,
}

impl View for Label {
    type V = LabelView;

    open spec fn view(&self) -> LabelView {
        LabelView { text: self.text@, sections: self.sections@, kind: self.kind }
    }
}

/// One value of the document as the tree shows it.
#[derive(Debug, PartialEq, Eq)]
pub enum Node {
    /// A string, number, boolean or null: one label behind its key.
    Leaf { key: Option<Label>, value: Label },
    /// An object or array: a header that folds and unfolds its children.
    /// `id` tells this group from every other one, so that it stays folded
    /// or unfolded from one frame to the next.
    Group { key: Option<Label>, kind: GroupKind, header: String, id: String, children: Vec<Node> },
}

/// The mathematical form of a [`Node`].
pub enum NodeView {
    Leaf { key: Option<LabelView>, value: LabelView },
    Group {
        key: Option<LabelView>,
        kind: GroupKind,
        header: Seq<char>,
        id: Seq<char>,
        children: Seq<NodeView>,
    },
}

/// The view of a label that may be absent.
pub open spec fn label_view(label: Option<Label>) -> Option<LabelView> {
    match label {
        Some(label) => Some(label@),
        None => None,
    }
}

impl View for Node {
    type V = NodeView;

    open spec fn view(&self) -> NodeView
        decreases self,
    {
        match self {
            Node::Leaf { key, value } => NodeView::Leaf { key: label_view(*key), value: value@ },
            Node::Group { key, kind, header, id, children } => NodeView::Group {
                key: label_view(*key),
                kind: *kind,
                header: header@,
                id: id@,
                children: Seq::new(
                    children@.len(),
                    |i: int|
                        if 0 <= i < children@.len() {
                            children@[i]@
                        } else {
                            arbitrary()
                        },
                ),
            },
        }
    }
}

/// A label with the sections that the search gives it.
pub open spec fn label_of(text: Seq<char>, kind: LabelKind, query: Seq<char>) -> LabelView {
    LabelView { text, sections: sections_of(text, query), kind }
}

/// A member's name as it is shown: in quotes, with a colon behind.
pub open spec fn key_text(key: Seq<char>) -> Seq<char> {
    "\""@ + key + "\":"@
}

/// The label of a member's name; none for the root and for array elements.
pub open spec fn key_label(key: Option<Seq<char>>, query: Seq<char>) -> Option<LabelView> {
    match key {
        Some(key) => Some(label_of(key_text(key), LabelKind::Key, query)),
        None => None,
    }
}

/// The header of an object with `count` members.
pub open spec fn object_header(count: nat) -> Seq<char> {
    "{ ... } ("@ + decimal(count) + " items)"@
}

/// The header of an array with `count` elements.
pub open spec fn array_header(count: nat) -> Seq<char> {
    "[ ... ] ("@ + decimal(count) + " items)"@
}

/// The path of the member `key` of the object at `path`.
pub open spec fn member_path(path: Seq<char>, key: Seq<char>) -> Seq<char> {
    path + "."@ + key
}

/// The path of the element `index` of the array at `path`.
pub open spec fn element_path(path: Seq<char>, index: nat) -> Seq<char> {
    path + "["@ + decimal(index) + "]"@
}

/// What the tree shows for `value`, found at `path` under the name `key`,
/// while `query` is searched for.
pub open spec fn rendered(
    key: Option<Seq<char>>,
    value: JsonView,
    path: Seq<char>,
    query: Seq<char>,
) -> NodeView
    decreases value,
{
    match value {
        JsonView::Object(members) => NodeView::Group {
            key: key_label(key, query),
            kind: GroupKind::Object,
            header: object_header(members.len()),
            id: path + "_object"@,
            children: Seq::new(
                members.len(),
                |i: int|
                    if 0 <= i < members.len() {
                        rendered(
                            Some(members[i].0),
                            members[i].1,
                            member_path(path, members[i].0),
                            query,
                        )
                    } else {
                        arbitrary()
                    },
            ),
        },
        JsonView::Array(items) => NodeView::Group {
            key: key_label(key, query),
            kind: GroupKind::Array,
            header: array_header(items.len()),
            id: path + "_array"@,
            children: Seq::new(
                items.len(),
                |i: int|
                    if 0 <= i < items.len() {
                        rendered(None, items[i], element_path(path, i as nat), query)
                    } else {
                        arbitrary()
                    },
            ),
        },
        JsonView::Text(s) => NodeView::Leaf {
            key: key_label(key, query),
            value: label_of("\""@ + s + "\""@, LabelKind::Text, query),
        },
        JsonView::Number(n) => NodeView::Leaf {
            key: key_label(key, query),
            value: label_of(n, LabelKind::Number, query),
        },
        JsonView::Bool(b) => NodeView::Leaf {
            key: key_label(key, query),
            value: label_of(
                if b {
                    "true"@
                } else {
                    "false"@
                },
                LabelKind::Bool,
                query,
            ),
        },
        JsonView::Null => NodeView::Leaf {
            key: key_label(key, query),
            value: label_of("null"@, LabelKind::Null, query),
        },
    }
}

/// The label is laid out for the search `query`.
pub open spec fn label_searched(label: LabelView, query: Seq<char>) -> bool {
    label.sections == sections_of(label.text, query)
}

/// Every label of the tree, of a key or of a value, is laid out for the
/// search `query`.
pub open spec fn tree_searched(node: NodeView, query: Seq<char>) -> bool
    decreases node,
{
    match node {
        NodeView::Leaf { key, value } => {
            &&& key matches Some(key) ==> label_searched(key, query)
            &&& label_searched(value, query)
        },
        NodeView::Group { key, kind, header, id, children } => {
            &&& key matches Some(key) ==> label_searched(key, query)
            &&& forall|i: int| 0 <= i < children.len() ==> tree_searched(#[trigger] children[i], query)
        },
    }
}

/// The search reaches every label of a rendered value, however deep: each
/// key and each value is laid out for the query.
pub proof fn lemma_rendered_tree_searched(
    key: Option<Seq<char>>,
    value: JsonView,
    path: Seq<char>,
    query: Seq<char>,
)
    ensures
        tree_searched(rendered(key, value, path, query), query),
    decreases value,
{
    match value {
        JsonView::Object(members) => {
            lemma_rendered_object(key, members, path, query);
            let children = rendered_members(members, path, query);
            assert forall|i: int| 0 <= i < children.len() implies tree_searched(
                #[trigger] children[i],
                query,
            ) by {
                lemma_rendered_tree_searched(
                    Some(members[i].0),
                    members[i].1,
                    member_path(path, members[i].0),
                    query,
                );
            }
        },
        JsonView::Array(items) => {
            lemma_rendered_array(key, items, path, query);
            let children = rendered_elements(items, path, query);
            assert forall|i: int| 0 <= i < children.len() implies tree_searched(
                #[trigger] children[i],
                query,
            ) by {
                lemma_rendered_tree_searched(None, items[i], element_path(path, i as nat), query);
            }
        },
        _ => {},
    }
}

/// The view of a name that may be absent.
pub open spec fn name_view(name: Option<&str>) -> Option<Seq<char>> {
    match name {
        Some(name) => Some(name@),
        None => None,
    }
}

/// Lays out one label for the search.
pub fn make_label(text: String, kind: LabelKind, search_query: &str) -> (label: Label)
    ensures
        label@ == label_of(text@, kind, search_query@),
        covers(label.sections@, 0, encode_utf8(text@).len() as int),
        on_char_boundaries(encode_utf8(text@), label.sections@),
{
    let sections = create_highlighted_layout_sections(text.as_str(), search_query);
    Label { text, sections, kind }
}

/// The label of a member's name.
fn make_key_label(key_name: Option<&str>, search_query: &str) -> (label: Option<Label>)
    ensures
        label_view(label) == key_label(name_view(key_name), search_query@),
{
    match key_name {
        Some(key) => {
            let mut text = String::from_str("\"");
            text.append(key);
            text.append("\":");
            Some(make_label(text, LabelKind::Key, search_query))
        },
        None => None,
    }
}

/// `front`, then the decimal digits of `count`, then `back`.
fn counted(front: &str, count: usize, back: &str) -> (text: String)
    ensures
        text@ == front@ + decimal(count as nat) + back@,
{
    let mut text = String::from_str(front);
    let digits = decimal_text(count);
    text.append(digits.as_str());
    text.append(back);
    text
}

/// `front` followed by `back`.
fn joined(front: &str, back: &str) -> (text: String)
    ensures
        text@ == front@ + back@,
{
    let mut text = String::from_str(front);
    text.append(back);
    text
}

/// The children of an object's group: one per member, in order.
pub open spec fn rendered_members(
    members: Seq<(Seq<char>, JsonView)>,
    path: Seq<char>,
    query: Seq<char>,
) -> Seq<NodeView> {
    Seq::new(
        members.len(),
        |i: int|
            rendered(Some(members[i].0), members[i].1, member_path(path, members[i].0), query),
    )
}

/// The children of an array's group: one per element, in order.
pub open spec fn rendered_elements(items: Seq<JsonView>, path: Seq<char>, query: Seq<char>) -> Seq<
    NodeView,
> {
    Seq::new(items.len(), |i: int| rendered(None, items[i], element_path(path, i as nat), query))
}

/// An object is shown as a group of its members.
pub proof fn lemma_rendered_object(
    key: Option<Seq<char>>,
    members: Seq<(Seq<char>, JsonView)>,
    path: Seq<char>,
    query: Seq<char>,
)
    ensures
        rendered(key, JsonView::Object(members), path, query) == (NodeView::Group {
            key: key_label(key, query),
            kind: GroupKind::Object,
            header: object_header(members.len()),
            id: path + "_object"@,
            children: rendered_members(members, path, query),
        }),
{
    let shown = rendered(key, JsonView::Object(members), path, query);
    assert(shown->Group_children =~= rendered_members(members, path, query));
}

/// An array is shown as a group of its elements.
pub proof fn lemma_rendered_array(
    key: Option<Seq<char>>,
    items: Seq<JsonView>,
    path: Seq<char>,
    query: Seq<char>,
)
    ensures
        rendered(key, JsonView::Array(items), path, query) == (NodeView::Group {
            key: key_label(key, query),
            kind: GroupKind::Array,
            header: array_header(items.len()),
            id: path + "_array"@,
            children: rendered_elements(items, path, query),
        }),
{
    let shown = rendered(key, JsonView::Array(items), path, query);
    assert(shown->Group_children =~= rendered_elements(items, path, query));
}

/// The views of the nodes of a list.
pub open spec fn node_views(nodes: Seq<Node>) -> Seq<NodeView> {
    Seq::new(nodes.len(), |i: int| nodes[i]@)
}

/// The view of a group holds the views of its children.
proof fn lemma_group_view(node: Node)
    requires
        node is Group,
    ensures
        node@ == (NodeView::Group {
            key: label_view(node->Group_key),
            kind: node->Group_kind,
            header: node->Group_header@,
            id: node->Group_id@,
            children: node_views(node->Group_children@),
        }),
{
    reveal_with_fuel(<Node as View>::view, 2);
    assert(node@->Group_children =~= node_views(node->Group_children@));
}

/// Renders the members of the object `owner`, found at `path_segment`.
fn render_members(
    owner: &JsonValue,
    members: &Vec<(String, JsonValue)>,
    path_segment: &str,
    search_query: &str,
) -> (children: Vec<Node>)
    requires
        *owner == JsonValue::Object(*members),
    ensures
        node_views(children@) == rendered_members(
            member_views(members@),
            path_segment@,
            search_query@,
        ),
    decreases owner, 0nat,
{
    let mut children: Vec<Node> = Vec::new();
    let mut i: usize = 0;
    while i < members.len()
        invariant
            i <= members.len(),
            *owner == JsonValue::Object(*members),
            children@.len() == i,
            forall|k: int|
                0 <= k < i ==> (#[trigger] children@[k])@ == rendered(
                    Some(members@[k].0@),
                    members@[k].1@,
                    member_path(path_segment@, members@[k].0@),
                    search_query@,
                ),
        decreases members.len() - i,
    {
        proof {
            assert(decreases_to!(owner => owner->Object_0));
            assert(decreases_to!(*members => members@));
            assert(decreases_to!(members@ => members@[i as int]));
            assert(decreases_to!(members@[i as int] => members@[i as int].1));
        }
        let member = &members[i];
        let mut path = joined(path_segment, ".");
        path.append(member.0.as_str());
        let child = render_json_value(
            Some(member.0.as_str()),
            &member.1,
            path.as_str(),
            search_query,
        );
        children.push(child);
        i = i + 1;
    }
    assert(node_views(children@) =~= rendered_members(
        member_views(members@),
        path_segment@,
        search_query@,
    ));
    children
}

/// Renders the elements of the array `owner`, found at `path_segment`.
fn render_elements(
    owner: &JsonValue,
    items: &Vec<JsonValue>,
    path_segment: &str,
    search_query: &str,
) -> (children: Vec<Node>)
    requires
        *owner == JsonValue::Array(*items),
    ensures
        node_views(children@) == rendered_elements(
            element_views(items@),
            path_segment@,
            search_query@,
        ),
    decreases owner, 0nat,
{
    let mut children: Vec<Node> = Vec::new();
    let mut i: usize = 0;
    while i < items.len()
        invariant
            i <= items.len(),
            *owner == JsonValue::Array(*items),
            children@.len() == i,
            forall|k: int|
                0 <= k < i ==> (#[trigger] children@[k])@ == rendered(
                    None,
                    items@[k]@,
                    element_path(path_segment@, k as nat),
                    search_query@,
                ),
        decreases items.len() - i,
    {
        proof {
            assert(decreases_to!(owner => owner->Array_0));
            assert(decreases_to!(*items => items@));
            assert(decreases_to!(items@ => items@[i as int]));
        }
        let front = joined(path_segment, "[");
        let path = counted(front.as_str(), i, "]");
        let child = render_json_value(None, &items[i], path.as_str(), search_query);
        children.push(child);
        i = i + 1;
    }
    assert(node_views(children@) =~= rendered_elements(
        element_views(items@),
        path_segment@,
        search_query@,
    ));
    children
}

/// Renders one value of a document: a label for a string, number, boolean or
/// null, a group with one child per member or element for an object or
/// array. `path_segment` is the place of the value in the document, `$` for
/// the root.
pub fn render_json_value(
    key_name: Option<&str>,
    value: &JsonValue,
    path_segment: &str,
    search_query: &str,
) -> (node: Node)
    ensures
        node@ == rendered(name_view(key_name), value@, path_segment@, search_query@),
        tree_searched(node@, search_query@),
    decreases value, 1nat,
{
    proof {
        lemma_rendered_tree_searched(
            name_view(key_name),
            value@,
            path_segment@,
            search_query@,
        );
    }
    let key = make_key_label(key_name, search_query);
    match value {
        JsonValue::Object(members) => {
            let header = counted("{ ... } (", members.len(), " items)");
            let id = joined(path_segment, "_object");
            let children = render_members(value, members, path_segment, search_query);
            let node = Node::Group { key, kind: GroupKind::Object, header, id, children };
            proof {
                lemma_group_view(node);
                lemma_container_view(*value);
                lemma_rendered_object(
                    name_view(key_name),
                    member_views(members@),
                    path_segment@,
                    search_query@,
                );
            }
            node
        },
        JsonValue::Array(items) => {
            let header = counted("[ ... ] (", items.len(), " items)");
            let id = joined(path_segment, "_array");
            let children = render_elements(value, items, path_segment, search_query);
            let node = Node::Group { key, kind: GroupKind::Array, header, id, children };
            proof {
                lemma_group_view(node);
                lemma_container_view(*value);
                lemma_rendered_array(
                    name_view(key_name),
                    element_views(items@),
                    path_segment@,
                    search_query@,
                );
            }
            node
        },
        JsonValue::Text(s) => {
            let mut text = joined("\"", s.as_str());
            text.append("\"");
            Node::Leaf { key, value: make_label(text, LabelKind::Text, search_query) }
        },
        JsonValue::Number(n) => Node::Leaf {
            key,
            value: make_label(n.clone(), LabelKind::Number, search_query),
        },
        JsonValue::Bool(b) => {
            let text = if *b {
                String::from_str("true")
            } else {
                String::from_str("false")
            };
            Node::Leaf { key, value: make_label(text, LabelKind::Bool, search_query) }
        },
        JsonValue::Null => Node::Leaf {
            key,
            value: make_label(String::from_str("null"), LabelKind::Null, search_query),
        },
    }
}

/// The path of a document's root.
pub open spec fn root_path() -> Seq<char> {
    "$"@
}

/// Renders a whole document: its root has no key and the path `$`.
pub fn render_document(document: &serde_json::Value, search_query: &str) -> (node: Node)
    ensures
        node@ == rendered(None, value_tree(*document), root_path(), search_query@),
        tree_searched(node@, search_query@),
{
    let tree = tree_of(document);
    render_json_value(None, &tree, "$", search_query)
}

} // verus!
