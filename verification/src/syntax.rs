//! Plain-value models of the pieces of Rust syntax that the macros read.
use vstd::prelude::*;

verus! {

/// The delimiter of a token group.
#[derive(Clone, Copy, Debug, PartialEq, Eq, Structural)]
pub enum Delimiter {
    Parenthesis,
    Brace,
    Bracket,
    /// An invisible group, as made by `macro_rules!` substitutions.
    Invisible,
}

/// One token tree, as the compiler hands it to a procedural macro.
#[derive(Debug)]
pub enum TokenTree {
    /// A delimited group; `text` is how the whole group prints.
    Group { delimiter: Delimiter, stream: Vec<TokenTree>, text: String },
    /// An identifier, as it prints (a raw identifier keeps its `r#`).
    Ident(String),
    /// A punctuation character; `joint` when it is glued to the next one.
    Punct { ch: char, joint: bool },
    /// A literal, as it prints (a string literal keeps its quotes).
    Literal(String),
}

impl TokenTree {
    /// How the token tree prints.
    pub open spec fn text(self) -> Seq<char> {
        match self {
            TokenTree::Group { text, .. } => text@,
            TokenTree::Ident(s) => s@,
            TokenTree::Punct { ch, .. } => seq![ch],
            TokenTree::Literal(s) => s@,
        }
    }
}

/// A Rust type.  `text` is the type as written, for rendering it back.
#[derive(Debug)]
pub struct Ty {
    pub kind: TyKind,
    pub text: String,
}

/// The shapes of type that the macros look into.
#[derive(Debug)]
pub enum TyKind {
    /// A path type such as `std::vec::Vec<T>`, by its segments.
    Path(Vec<PathSegment>),
    /// A tuple type.
    Tuple(Vec<Ty>),
    /// Any other type.
    Other,
}

/// One segment of a path: its identifier and its arguments.
#[derive(Debug)]
pub struct PathSegment {
    pub ident: String,
    pub arguments: PathArguments,
}

/// The arguments of a path segment.
#[derive(Debug)]
pub enum PathArguments {
    /// No arguments.
    Bare,
    /// `<A, B, ..>`
    AngleBracketed(Vec<GenericArgument>),
    /// `(A, B) -> C`
    Parenthesized,
}

/// One argument between angle brackets.
#[derive(Debug)]
pub enum GenericArgument {
    Type(Ty),
    /// A lifetime, a constant, an associated type binding, ...
    Other,
}

/// The path of an attribute, e.g. `builder` in `#[builder(each = "arg")]`.
#[derive(Debug)]
pub struct AttrPath {
    pub leading_colon: bool,
    pub segments: Vec<PathSegment>,
}

/// The value of a `name = value` attribute.
#[derive(Debug)]
pub enum AttrValue {
    /// A string literal, by its value (quotes and escapes resolved).
    Str(String),
    Other,
}

/// The body of an attribute.
#[derive(Debug)]
pub enum Meta {
    /// `#[path]`
    Path,
    /// `#[path(tokens)]`
    List(Vec<TokenTree>),
    /// `#[path = value]`
    NameValue(AttrValue),
}

/// An outer attribute; `text` is how the whole attribute prints.
#[derive(Debug)]
pub struct Attribute {
    pub path: AttrPath,
    pub meta: Meta,
    pub text: String,
}

/// A named field of a struct.
#[derive(Debug)]
pub struct Field {
    pub attrs: Vec<Attribute>,
    pub ident: String,
    pub ty: Ty,
}

/// One generic parameter of an item.
#[derive(Debug)]
pub enum GenericParam {
    /// A type parameter, with its bounds as written.
    Type { ident: String, bounds: Vec<String> },
    Lifetime,
    Const,
}

/// The generic parameters of an item.
#[derive(Debug)]
pub struct Generics {
    pub params: Vec<GenericParam>,
}

/// The body of a derive input.
#[derive(Debug)]
pub enum Data {
    /// A struct with named fields.
    NamedStruct(Vec<Field>),
    /// A tuple or unit struct, an enum or a union.
    Other,
}

/// The item a derive macro is applied to.
#[derive(Debug)]
pub struct DeriveInput {
    pub ident: String,
    pub generics: Generics,
    pub data: Data,
}

} // verus!
