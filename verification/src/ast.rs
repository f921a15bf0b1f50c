//! The syntax-tree model the analyses work on.
//!
//! The model is deliberately shallow: a node keeps exactly what the
//! analyses read and nothing more. Type annotations and parameter types
//! are carried as opaque source text; the analyses never interpret them
//! beyond the shape recorded next to them.

use vstd::prelude::*;

verus! {

/// The kind of a literal expression.
pub enum LitKind {
    /// An integer literal.
    Int,
    /// A floating-point literal.
    Float,
    /// A string literal.
    Str,
    /// A character literal.
    Char,
    /// A boolean literal.
    Bool,
    /// A byte literal.
    Byte,
    /// A byte-string literal.
    ByteStr,
    /// A verbatim or otherwise unrecognized literal.
    Verbatim,
}

/// The syntactic shape of an explicit type annotation, as far as the
/// tagging heuristic cares: array types and tuple types get a marked tag,
/// every other annotation is reported verbatim.
pub enum TypeShape {
    /// An array type, `[T; N]`.
    Array,
    /// A tuple type, `(T, U, ...)`.
    Tuple,
    /// Any other type.
    Other,
}

/// An explicit type annotation on a local binding: its raw source text
/// together with its recorded shape.
pub struct TypeAnnotation {
    /// The annotation as source text.
    pub text: String,
    /// The shape of the annotated type.
    pub shape: TypeShape,
}

/// An expression, reduced to the shapes the analyses distinguish.
///
/// Any expression kind outside this closed set is carried as [`Expression::Other`];
/// both analyses treat it as an unrecognized shape rather than failing.
pub enum Expression {
    /// A literal of the given kind.
    Literal(LitKind),
    /// A path reference, as its segment names.
    Path(Vec<String>),
    /// A unary operator applied to an operand.
    Unary(Box<Expression>),
    /// A binary operator applied to two operands.
    Binary(Box<Expression>, Box<Expression>),
    /// A call expression.
    Call,
    /// A closure; each parameter is recorded as its explicit type text,
    /// or `None` where the parameter carries no explicit type.
    Closure(Vec<Option<String>>),
    /// A macro invocation, by the macro's name.
    MacroInvocation(String),
    /// An array literal.
    Array(Vec<Expression>),
    /// A tuple literal.
    Tuple(Vec<Expression>),
    /// A struct literal: the struct's name where the written path is a
    /// plain identifier, and for each field whether it is addressed by name.
    Struct { name: Option<String>, field_is_named: Vec<bool> },
    /// An `if` with its then-block and, where present, its else-branch.
    /// An else-branch that is a bare block arrives as [`Expression::BlockExpr`];
    /// an else-if chain arrives as a nested [`Expression::If`].
    If { then_block: Block, else_branch: Option<Box<Expression>> },
    /// A `match`, as the body expression of each arm in order.
    Match(Vec<Expression>),
    /// A `loop` with its body.
    Loop(Block),
    /// A `while` loop with its body.
    While(Block),
    /// A `for` loop with its body.
    ForLoop(Block),
    /// A `try` block with its body.
    TryBlock(Block),
    /// A `?`-style short-circuit applied to an inner expression.
    TryOperator(Box<Expression>),
    /// An unsafe block with its body.
    UnsafeBlock(Block),
    /// A bare nested block used as an expression.
    BlockExpr(Block),
    /// Any expression shape outside the closed set above.
    Other,
}

/// A statement, reduced to the shapes the analyses distinguish.
pub enum Statement {
    /// A local binding. `name` is the bound identifier where the pattern
    /// is a plain name, and `None` where the pattern destructures.
    Local {
        name: Option<String>,
        annotation: Option<TypeAnnotation>,
        init: Option<Expression>,
    },
    /// An expression in statement position, with or without a trailing
    /// statement terminator.
    ExprStmt { expr: Expression, has_terminator: bool },
    /// Any other statement, such as an item declared inside a block.
    Other,
}

/// An ordered sequence of statements, in source order.
pub struct Block {
    pub stmts: Vec<Statement>,
}

/// One function parameter as the extractor saw it.
pub enum Param {
    /// A parameter written as a plain name with a type.
    Named { name: String, type_text: String },
    /// A receiver or a destructured parameter; the tagging analysis
    /// skips these.
    Other,
}

/// A function declaration: the input record of both analyses.
pub struct Function {
    /// The function's identifier.
    pub name: String,
    /// The parameters, in declaration order.
    pub params: Vec<Param>,
    /// The explicit return type as source text, absent where the
    /// function is unit-like.
    pub return_type: Option<String>,
    /// The function body.
    pub body: Block,
}

/// A top-level item of a source file.
pub enum Item {
    /// A function declaration.
    Fn(Function),
    /// Any other top-level item; the analyses pass these over.
    Other,
}

/// An already-parsed source file: its top-level items in order.
pub struct SourceFile {
    pub items: Vec<Item>,
}

/// The function declarations among a sequence of items, in order.
pub open spec fn functions_of(items: Seq<Item>) -> Seq<Function>
    decreases items,
{
    if items.len() == 0 {
        Seq::<Function>::empty()
    } else {
        (match items[0] {
            Item::Fn(f) => seq![f],
            Item::Other => Seq::<Function>::empty(),
        }) + functions_of(items.subrange(1, items.len() as int))
    }
}

/// Filters a source file down to its function declarations, keeping
/// their order.
pub fn extract_functions(file: SourceFile) -> (r: Vec<Function>)
    ensures
        r@ == functions_of(file.items@),
{
    let ghost all = file.items@;
    let mut items = file.items;
    let mut out: Vec<Function> = Vec::new();
    while items.len() > 0
        invariant
            out@ + functions_of(items@) == functions_of(all),
        decreases items@.len(),
    {
        let ghost prev = items@;
        let it = items.remove(0);
        proof {
            assert(items@ =~= prev.subrange(1, prev.len() as int));
        }
        match it {
            Item::Fn(f) => {
                out.push(f);
                proof {
                    assert(out@ + functions_of(items@) =~= functions_of(all));
                }
            },
            Item::Other => {
                proof {
                    assert(out@ + functions_of(items@) =~= functions_of(all));
                }
            },
        }
    }
    proof {
        assert(functions_of(items@) == Seq::<Function>::empty());
        assert(out@ =~= out@ + functions_of(items@));
    }
    out
}

} // verus!
