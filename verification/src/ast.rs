//! The abstract syntax tree that the external parser hands to the compiler,
//! and the compile-time literals that end up in the constant pool.

use vstd::prelude::*;

verus! {

/// A compile-time constant: the subset of runtime values that a source
/// literal can denote.  Singles (32-bit floats) are carried as their raw
/// IEEE 754 bit pattern, so the compiler can intern and compare them
/// structurally without doing any floating-point work itself.
#[derive(Clone, Debug, PartialEq, Eq)]
pub enum Literal {
    Integer(i32),
    Single(u32),
    Str(String),
    Unit,
}

/// The mathematical image of a [`Literal`]: the same shape with the string
/// payload abstracted to a sequence of characters.
pub enum LitV {
    Integer(i32),
    Single(u32),
    Str(Seq<char>),
    Unit,
}

impl View for Literal {
    type V = LitV;

    open spec fn view(&self) -> LitV {
        match self {
            Literal::Integer(i) => LitV::Integer(*i),
            Literal::Single(bits) => LitV::Single(*bits),
            Literal::Str(s) => LitV::Str(s@),
            Literal::Unit => LitV::Unit,
        }
    }
}

impl DeepView for Literal {
    type V = LitV;

    open spec fn deep_view(&self) -> LitV {
        self.view()
    }
}

impl Literal {
    /// Structural equality on literals; constant-pool interning compares by
    /// this.
    pub fn lit_eq(&self, other: &Literal) -> (r: bool)
        ensures
            r == (self@ == other@),
    {
        match self {
            Literal::Integer(a) => match other {
                Literal::Integer(b) => *a == *b,
                _ => false,
            },
            Literal::Single(a) => match other {
                Literal::Single(b) => *a == *b,
                _ => false,
            },
            Literal::Str(a) => match other {
                Literal::Str(b) => *a == *b,
                _ => false,
            },
            Literal::Unit => match other {
                Literal::Unit => true,
                _ => false,
            },
        }
    }

    /// A structural copy: the duplicate denotes the same literal.
    pub fn duplicate(&self) -> (r: Literal)
        ensures
            r@ == self@,
    {
        match self {
            Literal::Integer(i) => Literal::Integer(*i),
            Literal::Single(bits) => Literal::Single(*bits),
            Literal::Str(s) => Literal::Str(s.clone()),
            Literal::Unit => Literal::Unit,
        }
    }
}

/// One expression of the source program, as delivered by the external
/// parser.
pub enum Expr {
    /// A source literal.
    Literal(Literal),
    /// A variable reference, resolved by name and ambient purity.
    Var(String),
    /// Inclusion of the named modules, each compiled in place once.
    Load(Vec<String>),
    /// A binding: name, initializer, and whether the binding is impure.
    Def(String, Box<Expr>, bool),
    /// Application of a callee expression to arguments.
    Call(Box<Expr>, Vec<Expr>),
    /// An anonymous function: formal parameter names and the body.
    Lambda(Vec<String>, Box<Expr>),
    /// Invocation of a native builtin by name.
    Builtin(String, Vec<Expr>),
    /// An enum declaration: the enum name and its (constructor, arity) pairs.
    Enum(String, Vec<(String, u8)>),
    /// Application of an algebraic constructor to its contained values.
    Constr(String, Vec<Expr>),
    /// A quoted expression: compiled but not executed.
    Quote(Box<Expr>),
    /// An ordered tuple of expressions.
    Tuple(Vec<Expr>),
}

} // verus!
