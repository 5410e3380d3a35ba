use vstd::prelude::*;

verus! {

/// An attribute as the analyses read it.
#[derive(Debug, Clone)]
pub struct Attr {
    /// The identifiers of the attribute's path, in order (`a::b` gives `["a", "b"]`).
    pub path: Vec<String>,
    /// The path starts with `::`.
    pub leading_colon: bool,
    /// The attribute is a bare path, such as `#[test]`, with no arguments.
    pub is_bare_path: bool,
    /// The attribute's token text, as `quote` prints the whole attribute.
    pub tokens: String,
}

/// An item of a source file, as far as the analyses look into it.
#[derive(Debug)]
pub enum TopItem {
    /// An `impl` block and the functions it defines, in order.
    Impl { attrs: Vec<Attr>, fns: Vec<ImplFn> },
    /// A `struct` definition.
    Struct { attrs: Vec<Attr>, name: String },
    /// An `enum` definition.
    Enum { attrs: Vec<Attr>, name: String },
    /// Any other item.
    Other,
}

/// A function defined in an `impl` block.
#[derive(Debug)]
pub struct ImplFn {
    pub attrs: Vec<Attr>,
    /// Declared `pub` (without a restriction such as `pub(crate)`).
    pub is_public: bool,
    pub name: String,
    /// The statements of the function's body.
    pub body: Vec<Statement>,
}

/// A statement of a block.
#[derive(Debug)]
pub enum Statement {
    /// An expression statement, with or without its semicolon.
    Expression(Expression),
    /// A `let` statement and its initializer, if any.
    Let(Option<Expression>),
    /// An item or macro statement.
    Other,
}

/// An expression, with the parts that the storage and event analysis reads.
#[derive(Debug)]
pub enum Expression {
    /// `receiver.method(args)`; `quoted` is the token text of the whole call followed by
    /// `. receiver`, the text that the analysis searches for storage and event receivers.
    MethodCall { method: String, quoted: String, receiver: Box<Expression>, args: Vec<Expression> },
    /// `func(args)`; `callee` is the last identifier of `func` when `func` is a path.
    Call { callee: Option<String>, args: Vec<Expression> },
    Block(Vec<Statement>),
    If { cond: Box<Expression>, then_branch: Vec<Statement>, else_branch: Option<Box<Expression>> },
    /// `match` with the body of each arm.
    Match { scrutinee: Box<Expression>, arms: Vec<Expression> },
    Loop(Vec<Statement>),
    ForLoop { iterable: Box<Expression>, body: Vec<Statement> },
    While { cond: Box<Expression>, body: Vec<Statement> },
    Assign { left: Box<Expression>, right: Box<Expression> },
    Unary(Box<Expression>),
    Binary { left: Box<Expression>, right: Box<Expression> },
    Try(Box<Expression>),
    Await(Box<Expression>),
    /// A closure and its body.
    Closure(Box<Expression>),
    Tuple(Vec<Expression>),
    Array(Vec<Expression>),
    /// A struct literal with the values of its fields.
    Struct(Vec<Expression>),
    Return(Option<Box<Expression>>),
    Field(Box<Expression>),
    Index { base: Box<Expression>, index: Box<Expression> },
    Reference(Box<Expression>),
    Paren(Box<Expression>),
    Group(Box<Expression>),
    Cast(Box<Expression>),
    /// Any other expression (paths, literals, macros, ...).
    Other,
}

/// What a walk over every node of a file meets, in the walk's order, that the unused-variable
/// analysis reads.
#[derive(Debug, Clone)]
pub enum ScopeEvent {
    /// A function or a block begins.
    Enter,
    /// The function or block begun last ends.
    Exit,
    /// A `let` binds the single identifier `name`, which starts at (`line`, `column`); lines
    /// count from 1, columns count characters from 0.
    Declare { name: String, line: usize, column: usize },
    /// A path expression made of the single identifier `name`.
    Use { name: String },
}

/// What a walk over every node of a file meets, in the walk's order, that the cross-contract
/// call analysis reads.
#[derive(Debug, Clone)]
pub enum CallEvent {
    /// A free function or a function of an `impl` block named `name` begins.
    Function { name: String },
    /// A method call `receiver.method(..)`; `text` is the token text of the whole call.
    MethodCall { method: String, text: String },
}

/// A parsed source file: its top-level items in order, and what a walk over all of its nodes
/// meets.
#[derive(Debug)]
pub struct SourceFile {
    pub items: Vec<TopItem>,
    pub scope_events: Vec<ScopeEvent>,
    pub call_events: Vec<CallEvent>,
}

/// The model that parsing `source` as a Rust file gives (`None` when it does not parse): its
/// items, and what `syn`'s walks over all of its nodes meet.
pub uninterp spec fn source_model(source: Seq<char>) -> Option<SourceFile>;

/// Parses `source` with `syn::parse_str::<syn::File>` and lowers the parse into the model:
/// the top-level items, and the events of `syn`'s `Visit` walks over every node. The result
/// is a function of the text alone (spans count lines from 1 and columns in characters);
/// what `syn` makes of a given text is named, not stated.
#[verifier::external_body]
pub fn parse_source(source: &str) -> (parsed: Option<SourceFile>)
    ensures
        parsed == source_model(source@),
{
    let file = crate::lower::parse_file(source)?;
    let mut scopes = crate::lower::ScopeWalk { events: Vec::new() };
    syn::visit::Visit::visit_file(&mut scopes, &file);
    let mut calls = crate::lower::CallWalk { events: Vec::new() };
    syn::visit::Visit::visit_file(&mut calls, &file);
    Some(SourceFile {
        items: file.items.iter().map(crate::lower::lower_item).collect(),
        scope_events: scopes.events,
        call_events: calls.events,
    })
}

} // verus!
