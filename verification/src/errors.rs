//! The single error type shared by compilation and evaluation.  Every
//! failure aborts the operation in progress and is returned to the caller;
//! the variants preserve the categories a caller can react to, together
//! with the data a human-readable report needs.

use vstd::prelude::*;

verus! {

/// A compile-time or run-time failure.  Each variant carries the names and
/// counts needed to render a message; rendering itself is left to the
/// embedder.
#[derive(Clone, Debug, PartialEq, Eq)]
pub enum OrionError {
    /// The constant pool outgrew its 16-bit index space.
    TooManyConstants,
    /// The symbol table outgrew its 16-bit index space.
    TooManySymbols,
    /// The constructor table outgrew its 16-bit index space.
    TooManyConstructors,
    /// A variable was referenced that no declaration has bound.
    UnboundVariable(String),
    /// An impure symbol was referenced from a pure context.
    ImpureSymbol(String),
    /// An impure builtin was invoked from a pure context.
    ImpureBuiltin(String),
    /// A builtin was invoked that the builtin table does not know.
    UnknownBuiltin(String),
    /// A constructor was applied that was never registered.
    UnknownConstructor(String),
    /// A constructor name was registered twice; carries the index of the
    /// earlier registration.
    DuplicateConstructor(String, u16),
    /// A constructor was applied to the wrong number of contained values.
    ConstructorArity { name: String, expected: u8, given: usize },
    /// A module was requested that the compiler's module table does not
    /// hold.
    FileNotFound(String),
    /// A lambda was called with the wrong number of arguments.
    CallArity { expected: usize, given: usize },
    /// A builtin call instruction carried an argument count different from
    /// the builtin's registered arity.
    BuiltinArity { index: u8, expected: u8, given: u8 },
    /// A call's callee was not a lambda value.
    NotCallable,
    /// An operation was applied to a value of the wrong tag.
    TypeMismatch,
    /// An integer division's divisor was zero.
    DivisionByZero,
    /// An instruction needed more operands than the stack holds.
    StackUnderflow,
    /// An instruction referred to a constant, chunk, builtin or block that
    /// the bytecode container does not hold.
    InvalidBytecode,
    /// Nested calls exceeded the evaluator's call-depth budget.
    RecursionLimit,
    /// The chunk table outgrew its 16-bit index space.
    TooManyChunks,
    /// A call, builtin invocation or tuple carried more operands than its
    /// instruction can count.
    TooManyArguments,
    /// A compiled block grew past the 16-bit length its instruction
    /// carries.
    OversizedBlock,
}

} // verus!
