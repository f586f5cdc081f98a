use vstd::prelude::*;

verus! {

/// The kinds of menu that extensions can add items to.
#[derive(Debug, Clone, Copy, PartialEq, Eq, Structural)]
pub enum MenuKind {
    Context,
}

/// An item that an extension adds to a menu.
#[derive(Debug, Clone, PartialEq, Eq)]
pub struct MenuItem {
    pub title: String,
}

/// A JSON value that the host hands on as it is. A number is held as its
/// text.
#[derive(Debug, PartialEq, Eq)]
pub enum JsonValue {
    Null,
    Bool(bool),
    Number(String),
    String(String),
    Array(Vec<JsonValue>),
    Object(Vec<(String, JsonValue)>),
}

/// What an extension gets to render an element of a document.
#[derive(Debug, PartialEq, Eq)]
pub struct RenderElementProps {
    pub children: Vec<JsonValue>,
    pub element: Element,
    pub attributes: RenderElementAttributes,
}

/// An element of a document.
#[derive(Debug, PartialEq, Eq)]
pub struct Element {
    /// The type of the element, such as `paragraph`.
    pub kind: String,
    pub children: Vec<JsonValue>,
}

/// The attributes that the rendered element is to carry.
#[derive(Debug, PartialEq, Eq)]
pub struct RenderElementAttributes {
    pub data_slate_node: String,
    pub data_slate_inline: bool,
    pub data_slate_void: bool,
    pub dir: Option<String>,
    /// The editor's reference to the element.
    pub reference: JsonValue,
}

/// What an extension gets to render a leaf of a document.
#[derive(Debug, PartialEq, Eq)]
pub struct RenderLeafProps {
    pub children: Vec<JsonValue>,
    pub leaf: Text,
    pub text: Text,
    pub attributes: RenderLeafAttributes,
}

/// A run of text.
#[derive(Debug, Clone, PartialEq, Eq)]
pub struct Text {
    pub text: String,
}

/// The attributes that the rendered leaf is to carry.
#[derive(Debug, Clone, Copy, PartialEq, Eq, Structural)]
pub struct RenderLeafAttributes {
    pub data_slate_leaf: bool,
}

} // verus!
