//! The declarations of a JavaScript or TypeScript module as the symbol extraction
//! reads them: names, flags, byte spans and the source text of type annotations.
use vstd::prelude::*;

verus! {

/// A byte span of the source: start and end offsets.
#[derive(Debug, Clone, Copy)]
pub struct ByteSpan {
    pub start: u32,
    pub end: u32,
}

/// A function parameter: its bound name (through a default value), the source
/// text of its type annotation, and whether it is optional.
#[derive(Debug)]
pub struct ScriptParam {
    pub name: Option<String>,
    pub type_text: Option<String>,
    pub optional: bool,
}

/// A function: its name, span, `async` flag, parameters, the source text of its
/// return type annotation, and the names of its type parameters.
#[derive(Debug)]
pub struct ScriptFunction {
    pub name: Option<String>,
    pub span: ByteSpan,
    pub is_async: bool,
    pub params: Vec<ScriptParam>,
    pub return_text: Option<String>,
    pub type_params: Vec<String>,
}

/// The key of a class member or of an interface property.
#[derive(Debug)]
pub enum ScriptKey {
    /// `name`
    Static(String),
    /// `#name`, without the `#`
    Private(String),
    /// Any other key.
    Computed,
}

/// A member of a class body.
#[derive(Debug)]
pub enum ScriptClassElement {
    /// A method: key, span, whether it is the constructor, and its function.
    Method(ScriptKey, ByteSpan, bool, ScriptFunction),
    /// A property: key, span, whether it has an initial value.
    Property(ScriptKey, ByteSpan, bool),
    Other,
}

/// A class: its name, span, type parameter names and members.
#[derive(Debug)]
pub struct ScriptClass {
    pub name: Option<String>,
    pub span: ByteSpan,
    pub type_params: Vec<String>,
    pub elements: Vec<ScriptClassElement>,
}

/// The initial value of a variable, as far as it is a function.
#[derive(Debug)]
pub enum ScriptInit {
    /// An arrow function: `async` flag, parameters, return type text.
    Arrow(bool, Vec<ScriptParam>, Option<String>),
    Function(ScriptFunction),
    Other,
    Absent,
}

/// A variable declarator: the name when it binds a plain identifier, its span and
/// its initial value.
#[derive(Debug)]
pub struct ScriptDeclarator {
    pub name: Option<String>,
    pub span: ByteSpan,
    pub init: ScriptInit,
}

/// A member of an interface.
#[derive(Debug)]
pub enum ScriptMember {
    /// A property signature: key, span, optional flag, type annotation text.
    Property(ScriptKey, ByteSpan, bool, Option<String>),
    Other,
}

/// An interface: its name, span, type parameter names and members.
#[derive(Debug)]
pub struct ScriptInterface {
    pub name: String,
    pub span: ByteSpan,
    pub type_params: Vec<String>,
    pub members: Vec<ScriptMember>,
}

/// A declaration.
#[derive(Debug)]
pub enum ScriptDecl {
    Function(ScriptFunction),
    Class(ScriptClass),
    Variables(Vec<ScriptDeclarator>),
    /// A type alias: name, span, type parameter names, the source text of the
    /// whole declaration.
    TypeAlias(String, ByteSpan, Vec<String>, String),
    Interface(ScriptInterface),
    /// An enum: name and span.
    Enum(String, ByteSpan),
    Other,
}

/// What an `export default` exports.
#[derive(Debug)]
pub enum ScriptDefault {
    Function(ScriptFunction),
    Class(ScriptClass),
    Interface(ScriptInterface),
    /// Anything else, with the span of the whole statement.
    Other(ByteSpan),
}

/// A top-level statement.
#[derive(Debug)]
pub enum ScriptStatement {
    Decl(ScriptDecl),
    /// `export` of a declaration, or of names only.
    ExportNamed(Option<ScriptDecl>),
    ExportDefault(ScriptDefault),
    Other,
}

} // verus!
