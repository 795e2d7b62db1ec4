//! The stack-based evaluator.  It executes a bytecode container against a
//! mutable slot-indexed context and an operand stack, dispatching to
//! builtins through a fixed-arity calling convention.
//!
//! A call is dynamically scoped against the caller's live context: the
//! callee's parameter slots are bound in place and the whole context is
//! restored from a snapshot when the call returns.  Lambdas do not capture
//! their defining environment; this snapshot-bind-restore discipline is a
//! deliberate simplification, and it means two lambdas that share a
//! parameter name share its slot and can observe each other's rebinding
//! when nested — an open semantic question of the design, preserved here
//! as is.  Nested calls draw on a finite depth budget, standing for the
//! machine's finite call stack.
//!
//! [`run_spec`] is the evaluator's functional model: execution is proved
//! to match it exactly — the same machine state on success and the same
//! error on failure — except where a result of the embedder's
//! single-precision operations decides how the run goes on (a foreign
//! outcome), which is all that is left open.

use vstd::pervasive::VecAdditionalExecFns;
use vstd::prelude::*;

use crate::bytecode::{Bytecode, BytecodeV, OpCode};
use crate::errors::OrionError;
use crate::value::{copy_opcodes, duplicate_values, ValV, Value};

verus! {

/// Arithmetic and trigonometry on 32-bit singles, and any further
/// native builtins, supplied by the embedder.  The virtual machine
/// carries singles as raw IEEE 754 bit patterns and makes no promise
/// about these results; the numeric internals are the embedder's
/// domain.
pub trait SingleOps: Sized {
    fn add(&self, a: u32, b: u32) -> u32;

    /// An embedder-registered native builtin: it receives the operands
    /// its declared arity popped off the stack, in source order, and
    /// yields the one value the machine pushes back, or the error that
    /// aborts evaluation.
    fn native(&self, tag: u16, args: Vec<Value>) -> Result<Value, OrionError>;

    fn sub(&self, a: u32, b: u32) -> u32;

    fn mul(&self, a: u32, b: u32) -> u32;

    fn div(&self, a: u32, b: u32) -> u32;

    fn neg(&self, a: u32) -> u32;

    fn cos(&self, a: u32) -> u32;

    fn sin(&self, a: u32) -> u32;

    fn tan(&self, a: u32) -> u32;

    fn acos(&self, a: u32) -> u32;

    fn asin(&self, a: u32) -> u32;

    fn atan(&self, a: u32) -> u32;
}

/// One entry of the builtin dispatch table.
#[derive(Clone, Copy, Debug, PartialEq, Eq, Structural)]
pub enum Builtin {
    /// Numeric addition of the two topmost operands.
    Add,
    /// Record the top operand in the debug log and yield unit.
    Dbg,
    /// Splice a quoted block in: execute it against the live context.
    Unquote,
    /// An embedder-supplied native, dispatched through
    /// [`SingleOps::native`] with this tag.
    Native(u16),
}

/// How many nested calls (and unquotes) one evaluation may make: the
/// explicit stand-in for the machine's finite call stack.  Exceeding it
/// reports a recursion-limit error instead of overrunning the real
/// stack.
pub const MAX_CALL_DEPTH: usize = 256;

/// The value a constant pool entry materializes to.
pub open spec fn lit_to_val(l: crate::ast::LitV) -> ValV {
    match l {
        crate::ast::LitV::Integer(i) => ValV::Integer(i),
        crate::ast::LitV::Single(bits) => ValV::Single(bits),
        crate::ast::LitV::Str(s) => ValV::Str(s),
        crate::ast::LitV::Unit => ValV::Unit,
    }
}

/// The virtual machine: the program, the operand stack, the builtin
/// table, the embedder's single-precision operations, and the log the
/// dump builtin writes to.
pub struct VM<S: SingleOps> {
    pub input: Bytecode,
    pub stack: Vec<Value>,
    pub builtins: Vec<(Builtin, u8)>,
    pub single_ops: S,
    pub debug_log: Vec<Value>,
}

/// What no instruction may touch: the program and the builtin table are
/// read-only, the embedder's operations stay, and the debug log only
/// grows.
pub open spec fn vm_frame<S: SingleOps>(pre: VM<S>, post: VM<S>) -> bool {
    &&& post.input == pre.input
    &&& post.builtins == pre.builtins
    &&& post.single_ops == pre.single_ops
    &&& pre.debug_log.deep_view().is_prefix_of(post.debug_log.deep_view())
}

impl<S: SingleOps> VM<S> {
    /// A fresh machine over `input`, with the fixed builtin table
    /// registered: addition, the dump builtin, and unquote.
    pub fn new(input: Bytecode, single_ops: S) -> (r: VM<S>)
        ensures
            r.input == input,
            r.stack@.len() == 0,
            r.debug_log@.len() == 0,
            r.builtins@ == seq![(Builtin::Add, 2u8), (Builtin::Dbg, 1u8), (Builtin::Unquote, 1u8)],
    {
        let mut to_ret = VM {
            input,
            stack: Vec::new(),
            builtins: Vec::new(),
            single_ops,
            debug_log: Vec::new(),
        };
        to_ret.register_builtin(Builtin::Add, 2);
        to_ret.register_builtin(Builtin::Dbg, 1);
        to_ret.register_builtin(Builtin::Unquote, 1);
        proof {
            assert(to_ret.builtins@ =~= seq![
                (Builtin::Add, 2u8),
                (Builtin::Dbg, 1u8),
                (Builtin::Unquote, 1u8),
            ]);
        }
        to_ret
    }

    /// Append one builtin with its declared arity.
    pub fn register_builtin(&mut self, builtin: Builtin, argc: u8)
        ensures
            final(self).builtins@ == old(self).builtins@.push((builtin, argc)),
            final(self).input == old(self).input,
            final(self).stack == old(self).stack,
            final(self).single_ops == old(self).single_ops,
            final(self).debug_log == old(self).debug_log,
    {
        self.builtins.push((builtin, argc));
    }

    /// Pop the operand stack, or report underflow.
    pub fn pop(&mut self) -> (r: Result<Value, OrionError>)
        ensures
            old(self).stack@.len() > 0 ==> {
                &&& r matches Ok(v) && v.deep_view() == old(self).stack.deep_view().last()
                &&& final(self).stack.deep_view() == old(self).stack.deep_view().drop_last()
                &&& final(self).stack@.len() == old(self).stack@.len() - 1
            },
            old(self).stack@.len() == 0 ==> r == Err::<Value, OrionError>(
                OrionError::StackUnderflow,
            ) && final(self).stack@ == old(self).stack@ && final(self).stack.deep_view() == old(
                self,
            ).stack.deep_view(),
            final(self).input == old(self).input,
            final(self).builtins == old(self).builtins,
            final(self).single_ops == old(self).single_ops,
            final(self).debug_log == old(self).debug_log,
    {
        match self.stack.pop() {
            Some(v) => {
                proof {
                    assert(self.stack.deep_view() =~= old(self).stack.deep_view().drop_last());
                    assert(old(self).stack.deep_view().last() == old(
                        self,
                    ).stack@.last().deep_view());
                }
                Ok(v)
            },
            None => {
                proof {
                    assert(self.stack.deep_view() =~= old(self).stack.deep_view());
                }
                Err(OrionError::StackUnderflow)
            },
        }
    }
}

/// What executing one non-block instruction does, case by case (the
/// opcode table of the evaluator).  `ctx0`/`ctx1` are the context before
/// and after; block-building instructions are the stream driver's and are
/// rejected here.
pub open spec fn opcode_post<S: SingleOps>(
    pre: VM<S>,
    op: OpCode,
    ctx0: Seq<ValV>,
    depth: usize,
    post: VM<S>,
    ctx1: Seq<ValV>,
    r: Result<(), OrionError>,
) -> bool {
    let s0 = pre.stack.deep_view();
    let s1 = post.stack.deep_view();
    match op {
        OpCode::LoadConst(id) => if (id as int) < pre.input@.constants.len() {
            &&& r is Ok
            &&& s1 == s0.push(lit_to_val(pre.input@.constants[id as int]))
            &&& ctx1 == ctx0
            &&& post.debug_log == pre.debug_log
        } else {
            &&& r == Err::<(), OrionError>(OrionError::InvalidBytecode)
            &&& s1 == s0
            &&& ctx1 == ctx0
            &&& post.debug_log == pre.debug_log
        },
        OpCode::LoadSym(id) => if (id as int) < ctx0.len() {
            &&& r is Ok
            &&& s1 == s0.push(ctx0[id as int])
            &&& ctx1 == ctx0
            &&& post.debug_log == pre.debug_log
        } else {
            &&& r == Err::<(), OrionError>(OrionError::InvalidBytecode)
            &&& s1 == s0
            &&& ctx1 == ctx0
            &&& post.debug_log == pre.debug_log
        },
        OpCode::Def(id) => if s0.len() == 0 {
            &&& r == Err::<(), OrionError>(OrionError::StackUnderflow)
            &&& s1 == s0
            &&& ctx1 == ctx0
            &&& post.debug_log == pre.debug_log
        } else {
            &&& r is Ok
            &&& s1 == s0.drop_last()
            &&& ctx1 == if id as int >= ctx0.len() {
                ctx0.push(s0.last())
            } else {
                ctx0.update(id as int, s0.last())
            }
            &&& post.debug_log == pre.debug_log
        },
        OpCode::Lambda(chunk) => {
            &&& r is Ok
            &&& s1 == s0.push(ValV::Lambda(chunk))
            &&& ctx1 == ctx0
            &&& post.debug_log == pre.debug_log
        },
        OpCode::Call(argc) => if s0.len() < argc as int + 1 {
            &&& r == Err::<(), OrionError>(OrionError::StackUnderflow)
            &&& s1 == s0
            &&& ctx1 == ctx0
            &&& post.debug_log == pre.debug_log
        } else {
            match s0[s0.len() - argc - 1] {
                ValV::Lambda(c) => if c as int >= pre.input@.chunks.len() {
                    &&& r == Err::<(), OrionError>(OrionError::InvalidBytecode)
                    &&& s1 == s0.take(s0.len() - argc - 1)
                    &&& ctx1 == ctx0
                    &&& post.debug_log == pre.debug_log
                } else if pre.input@.chunks[c as int].reference.len() != argc as int {
                    &&& r == Err::<(), OrionError>(
                        OrionError::CallArity {
                            expected: pre.input@.chunks[c as int].reference.len() as usize,
                            given: argc as usize,
                        },
                    )
                    &&& s1 == s0.take(s0.len() - argc - 1)
                    &&& ctx1 == ctx0
                    &&& post.debug_log == pre.debug_log
                } else if depth == 0 {
                    &&& r == Err::<(), OrionError>(OrionError::RecursionLimit)
                    &&& s1 == s0.take(s0.len() - argc - 1)
                    &&& ctx1 == ctx0
                    &&& post.debug_log == pre.debug_log
                } else {
                    r is Ok ==> ctx1 == ctx0
                },
                _ => {
                    &&& r == Err::<(), OrionError>(OrionError::NotCallable)
                    &&& s1 == s0.take(s0.len() - argc - 1)
                    &&& ctx1 == ctx0
                    &&& post.debug_log == pre.debug_log
                },
            }
        },
        OpCode::Builtin(idx, argc) => if idx as int >= pre.builtins@.len() {
            &&& r == Err::<(), OrionError>(OrionError::InvalidBytecode)
            &&& s1 == s0
            &&& ctx1 == ctx0
            &&& post.debug_log == pre.debug_log
        } else {
            let entry = pre.builtins@[idx as int];
            if entry.1 != argc {
                &&& r == Err::<(), OrionError>(
                    OrionError::BuiltinArity { index: idx, expected: entry.1, given: argc },
                )
                &&& s1 == s0
                &&& ctx1 == ctx0
                &&& post.debug_log == pre.debug_log
            } else {
                match entry.0 {
                    Builtin::Add => {
                        &&& (s0.len() < 2 ==> r == Err::<(), OrionError>(
                            OrionError::StackUnderflow,
                        ) && s1.len() == 0 && ctx1 == ctx0 && post.debug_log == pre.debug_log)
                        &&& (s0.len() >= 2 ==> {
                            &&& ctx1 == ctx0
                            &&& post.debug_log == pre.debug_log
                            &&& match (s0[s0.len() - 2], s0[s0.len() - 1]) {
                                (ValV::Integer(l), ValV::Integer(rv)) => r is Ok && s1 == s0.take(
                                    s0.len() - 2,
                                ).push(ValV::Integer(l.wrapping_add(rv))),
                                (ValV::Single(l), ValV::Single(rv)) => r is Ok && s1.len()
                                    == s0.len() - 1 && s1.take(s0.len() - 2) == s0.take(
                                    s0.len() - 2,
                                ) && s1.last() is Single,
                                _ => r == Err::<(), OrionError>(OrionError::TypeMismatch) && s1
                                    == s0.take(s0.len() - 2),
                            }
                        })
                    },
                    Builtin::Dbg => if s0.len() == 0 {
            &&& r == Err::<(), OrionError>(OrionError::StackUnderflow)
            &&& s1 == s0
            &&& ctx1 == ctx0
            &&& post.debug_log == pre.debug_log
        } else {
                        &&& r is Ok
                        &&& s1 == s0.drop_last().push(ValV::Unit)
                        &&& post.debug_log.deep_view() == pre.debug_log.deep_view().push(s0.last())
                        &&& ctx1 == ctx0
                    },
                    Builtin::Unquote => if s0.len() == 0 {
            &&& r == Err::<(), OrionError>(OrionError::StackUnderflow)
            &&& s1 == s0
            &&& ctx1 == ctx0
            &&& post.debug_log == pre.debug_log
        } else {
                        match s0.last() {
                            ValV::Quoted(ops) => depth == 0 ==> r == Err::<(), OrionError>(
                                OrionError::RecursionLimit,
                            ) && s1 == s0.drop_last() && ctx1 == ctx0 && post.debug_log
                                == pre.debug_log,
                            _ => {
                                &&& r == Err::<(), OrionError>(OrionError::TypeMismatch)
                                &&& s1 == s0.drop_last()
                                &&& ctx1 == ctx0
                                &&& post.debug_log == pre.debug_log
                            },
                        }
                    },
                    Builtin::Native(tag) => if s0.len() < argc as int {
                        &&& r == Err::<(), OrionError>(OrionError::StackUnderflow)
                        &&& s1 == s0
                        &&& ctx1 == ctx0
                        &&& post.debug_log == pre.debug_log
                    } else {
                        &&& ctx1 == ctx0
                        &&& post.debug_log == pre.debug_log
                        &&& (r is Ok ==> s1.len() == s0.len() - argc + 1 && s1.take(
                            s0.len() - argc,
                        ) == s0.take(s0.len() - argc))
                        &&& (r is Err ==> s1 == s0.take(s0.len() - argc))
                    },
                }
            }
        },
        OpCode::Constructor(idx, len) => r == Err::<(), OrionError>(OrionError::InvalidBytecode),
        OpCode::Quote(len) => r == Err::<(), OrionError>(OrionError::InvalidBytecode),
        OpCode::Tuple(len, count) => r == Err::<(), OrionError>(OrionError::InvalidBytecode),
    }
}

/// The outcome of a spec-level run: the machine state it ends in, the
/// error it stops with, or foreign when a result supplied by the
/// embedder's single-precision operations decides how the run goes on,
/// so that no exact outcome can be stated.
pub enum RunOut {
    Done { stack: Seq<ValV>, ctx: Seq<ValV>, log: Seq<ValV> },
    Fail { err: OrionError },
    Foreign,
}

/// The arguments a call instruction consumes, in source order: the
/// earliest-pushed argument first, so parameter k binds the k-th
/// argument of the call.
pub open spec fn pushed_args(stack: Seq<ValV>, argc: int) -> Seq<ValV> {
    Seq::new(argc as nat, |j: int| stack[stack.len() - argc + j])
}

/// Bind each parameter slot in turn: a slot beyond the context's end
/// appends, any other slot overwrites in place.
pub open spec fn bind_params_spec(ctx: Seq<ValV>, slots: Seq<u16>, args: Seq<ValV>) -> Seq<ValV>
    decreases slots.len(),
{
    if slots.len() == 0 {
        ctx
    } else {
        let c1 = if slots[0] as int >= ctx.len() {
            ctx.push(args[0])
        } else {
            ctx.update(slots[0] as int, args[0])
        };
        bind_params_spec(c1, slots.drop_first(), args.drop_first())
    }
}

/// The spec-level effect of one non-block instruction, the evaluator's
/// functional model: what it leaves on the machine, the error it stops
/// with, or foreign where the embedder's singles decide.
pub open spec fn op_spec(
    bc: BytecodeV,
    bs: Seq<(Builtin, u8)>,
    op: OpCode,
    stack: Seq<ValV>,
    ctx: Seq<ValV>,
    log: Seq<ValV>,
    depth: int,
) -> RunOut
    decreases depth, 0int, 0int,
{
    match op {
        OpCode::LoadConst(id) => if (id as int) < bc.constants.len() {
            RunOut::Done {
                stack: stack.push(lit_to_val(bc.constants[id as int])),
                ctx,
                log,
            }
        } else {
            RunOut::Fail { err: OrionError::InvalidBytecode }
        },
        OpCode::LoadSym(id) => if (id as int) < ctx.len() {
            RunOut::Done { stack: stack.push(ctx[id as int]), ctx, log }
        } else {
            RunOut::Fail { err: OrionError::InvalidBytecode }
        },
        OpCode::Def(id) => if stack.len() == 0 {
            RunOut::Fail { err: OrionError::StackUnderflow }
        } else {
            RunOut::Done {
                stack: stack.drop_last(),
                ctx: if id as int >= ctx.len() {
                    ctx.push(stack.last())
                } else {
                    ctx.update(id as int, stack.last())
                },
                log,
            }
        },
        OpCode::Lambda(chunk) => RunOut::Done {
            stack: stack.push(ValV::Lambda(chunk)),
            ctx,
            log,
        },
        OpCode::Call(argc) => if stack.len() < argc as int + 1 {
            RunOut::Fail { err: OrionError::StackUnderflow }
        } else {
            match stack[stack.len() - argc - 1] {
                ValV::Lambda(c) => if c as int >= bc.chunks.len() {
                    RunOut::Fail { err: OrionError::InvalidBytecode }
                } else if bc.chunks[c as int].reference.len() != argc as int {
                    RunOut::Fail {
                        err: OrionError::CallArity {
                            expected: bc.chunks[c as int].reference.len() as usize,
                            given: argc as usize,
                        },
                    }
                } else if depth <= 0 {
                    RunOut::Fail { err: OrionError::RecursionLimit }
                } else {
                    let bound = bind_params_spec(
                        ctx,
                        bc.chunks[c as int].reference,
                        pushed_args(stack, argc as int),
                    );
                    match run_spec(
                        bc,
                        bs,
                        bc.chunks[c as int].instructions,
                        0,
                        stack.take(stack.len() - argc - 1),
                        bound,
                        log,
                        depth - 1,
                    ) {
                        RunOut::Done { stack: s2, ctx: c2, log: l2 } => RunOut::Done {
                            stack: s2,
                            ctx,
                            log: l2,
                        },
                        RunOut::Fail { err } => RunOut::Fail { err },
                        RunOut::Foreign => RunOut::Foreign,
                    }
                },
                _ => RunOut::Fail { err: OrionError::NotCallable },
            }
        },
        OpCode::Builtin(idx, argc) => if idx as int >= bs.len() {
            RunOut::Fail { err: OrionError::InvalidBytecode }
        } else if bs[idx as int].1 != argc {
            RunOut::Fail {
                err: OrionError::BuiltinArity { index: idx, expected: bs[idx as int].1, given: argc },
            }
        } else {
            match bs[idx as int].0 {
                Builtin::Add => if stack.len() < 2 {
                    RunOut::Fail { err: OrionError::StackUnderflow }
                } else {
                    match (stack[stack.len() - 2], stack[stack.len() - 1]) {
                        (ValV::Integer(l), ValV::Integer(rv)) => RunOut::Done {
                            stack: stack.take(stack.len() - 2).push(
                                ValV::Integer(l.wrapping_add(rv)),
                            ),
                            ctx,
                            log,
                        },
                        (ValV::Single(l), ValV::Single(rv)) => RunOut::Foreign,
                        _ => RunOut::Fail { err: OrionError::TypeMismatch },
                    }
                },
                Builtin::Dbg => if stack.len() == 0 {
                    RunOut::Fail { err: OrionError::StackUnderflow }
                } else {
                    RunOut::Done {
                        stack: stack.drop_last().push(ValV::Unit),
                        ctx,
                        log: log.push(stack.last()),
                    }
                },
                Builtin::Unquote => if stack.len() == 0 {
                    RunOut::Fail { err: OrionError::StackUnderflow }
                } else {
                    match stack.last() {
                        ValV::Quoted(ops) => if depth <= 0 {
                            RunOut::Fail { err: OrionError::RecursionLimit }
                        } else {
                            run_spec(bc, bs, ops, 0, stack.drop_last(), ctx, log, depth - 1)
                        },
                        _ => RunOut::Fail { err: OrionError::TypeMismatch },
                    }
                },
                Builtin::Native(tag) => if stack.len() < argc as int {
                    RunOut::Fail { err: OrionError::StackUnderflow }
                } else {
                    RunOut::Foreign
                },
            }
        },
        OpCode::Constructor(idx, len) => RunOut::Fail { err: OrionError::InvalidBytecode },
        OpCode::Quote(len) => RunOut::Fail { err: OrionError::InvalidBytecode },
        OpCode::Tuple(len, count) => RunOut::Fail { err: OrionError::InvalidBytecode },
    }
}

/// The spec-level run of an instruction block from position `i`: plain
/// instructions step by [`op_spec`]; a quote instruction stores its block
/// unexecuted; construct and make-tuple instructions run their operand
/// block and wrap what it pushed.
pub open spec fn run_spec(
    bc: BytecodeV,
    bs: Seq<(Builtin, u8)>,
    instrs: Seq<OpCode>,
    i: int,
    stack: Seq<ValV>,
    ctx: Seq<ValV>,
    log: Seq<ValV>,
    depth: int,
) -> RunOut
    decreases depth, instrs.len() - i, 1int,
{
    if i < 0 || i >= instrs.len() {
        RunOut::Done { stack, ctx, log }
    } else {
        match instrs[i] {
            OpCode::Quote(len) => if instrs.len() - i - 1 < len as int {
                RunOut::Fail { err: OrionError::InvalidBytecode }
            } else {
                run_spec(
                    bc,
                    bs,
                    instrs,
                    i + 1 + len,
                    stack.push(ValV::Quoted(instrs.subrange(i + 1, i + 1 + len))),
                    ctx,
                    log,
                    depth,
                )
            },
            OpCode::Constructor(cidx, len) => if instrs.len() - i - 1 < len as int {
                RunOut::Fail { err: OrionError::InvalidBytecode }
            } else {
                match run_spec(
                    bc,
                    bs,
                    instrs.subrange(i + 1, i + 1 + len),
                    0,
                    stack,
                    ctx,
                    log,
                    depth,
                ) {
                    RunOut::Done { stack: s2, ctx: c2, log: l2 } => if s2.len() < stack.len() {
                        RunOut::Fail { err: OrionError::InvalidBytecode }
                    } else {
                        run_spec(
                            bc,
                            bs,
                            instrs,
                            i + 1 + len,
                            s2.take(stack.len() as int).push(
                                ValV::Constructor(cidx, s2.skip(stack.len() as int)),
                            ),
                            c2,
                            l2,
                            depth,
                        )
                    },
                    RunOut::Fail { err } => RunOut::Fail { err },
                    RunOut::Foreign => RunOut::Foreign,
                }
            },
            OpCode::Tuple(len, count) => if instrs.len() - i - 1 < len as int {
                RunOut::Fail { err: OrionError::InvalidBytecode }
            } else {
                match run_spec(
                    bc,
                    bs,
                    instrs.subrange(i + 1, i + 1 + len),
                    0,
                    stack,
                    ctx,
                    log,
                    depth,
                ) {
                    RunOut::Done { stack: s2, ctx: c2, log: l2 } => if s2.len() < stack.len() {
                        RunOut::Fail { err: OrionError::InvalidBytecode }
                    } else if s2.len() - stack.len() < count as int {
                        RunOut::Fail { err: OrionError::StackUnderflow }
                    } else {
                        run_spec(
                            bc,
                            bs,
                            instrs,
                            i + 1 + len,
                            s2.take(s2.len() - count).push(
                                ValV::Tuple(s2.skip(s2.len() - count)),
                            ),
                            c2,
                            l2,
                            depth,
                        )
                    },
                    RunOut::Fail { err } => RunOut::Fail { err },
                    RunOut::Foreign => RunOut::Foreign,
                }
            },
            _ => match op_spec(bc, bs, instrs[i], stack, ctx, log, depth) {
                RunOut::Done { stack: s, ctx: c, log: l } => run_spec(
                    bc,
                    bs,
                    instrs,
                    i + 1,
                    s,
                    c,
                    l,
                    depth,
                ),
                RunOut::Fail { err } => RunOut::Fail { err },
                RunOut::Foreign => RunOut::Foreign,
            },
        }
    }
}

/// One instruction's execution matches its functional model: on a done
/// outcome it succeeds and leaves exactly that machine state, on a fail
/// outcome it returns exactly that error, and only a foreign outcome
/// (decided by the embedder's singles) is left open.
pub open spec fn op_mirrors<S: SingleOps>(
    pre: VM<S>,
    op: OpCode,
    ctx0: Seq<ValV>,
    depth: usize,
    post: VM<S>,
    ctx1: Seq<ValV>,
    r: Result<(), OrionError>,
) -> bool {
    match op_spec(
        pre.input@,
        pre.builtins@,
        op,
        pre.stack.deep_view(),
        ctx0,
        pre.debug_log.deep_view(),
        depth as int,
    ) {
        RunOut::Done { stack, ctx, log } => r is Ok && post.stack.deep_view() == stack && ctx1
            == ctx && post.debug_log.deep_view() == log,
        RunOut::Fail { err } => r == Err::<(), OrionError>(err),
        RunOut::Foreign => true,
    }
}

/// A block's execution matches its functional model, in the same sense
/// as [`op_mirrors`].
pub open spec fn run_mirrors<S: SingleOps>(
    pre: VM<S>,
    instrs: Seq<OpCode>,
    ctx0: Seq<ValV>,
    depth: usize,
    post: VM<S>,
    ctx1: Seq<ValV>,
    r: Result<(), OrionError>,
) -> bool {
    match run_spec(
        pre.input@,
        pre.builtins@,
        instrs,
        0,
        pre.stack.deep_view(),
        ctx0,
        pre.debug_log.deep_view(),
        depth as int,
    ) {
        RunOut::Done { stack, ctx, log } => r is Ok && post.stack.deep_view() == stack && ctx1
            == ctx && post.debug_log.deep_view() == log,
        RunOut::Fail { err } => r == Err::<(), OrionError>(err),
        RunOut::Foreign => true,
    }
}

impl<S: SingleOps> VM<S> {
    /// Pop everything the operand block of a construct instruction
    /// pushed (the stack above height `h0`) and wrap it, in push order,
    /// in a constructor value carrying `idx`.
    pub fn finish_constructor(&mut self, idx: u16, h0: usize)
        requires
            h0 <= old(self).stack@.len(),
        ensures
            final(self).stack.deep_view() == old(self).stack.deep_view().take(h0 as int).push(
                ValV::Constructor(idx, old(self).stack.deep_view().skip(h0 as int)),
            ),
            final(self).input == old(self).input,
            final(self).builtins == old(self).builtins,
            final(self).single_ops == old(self).single_ops,
            final(self).debug_log == old(self).debug_log,
    {
        let ghost s0 = self.stack.deep_view();
        let mut values: Vec<Value> = Vec::new();
        while self.stack.len() > h0
            invariant
                h0 <= self.stack@.len() <= s0.len(),
                self.stack.deep_view() == s0.take(self.stack@.len() as int),
                values.deep_view() == s0.skip(self.stack@.len() as int).take(
                    s0.len() - self.stack@.len(),
                ),
                s0.len() == old(self).stack@.len(),
                self.stack@.len() >= h0,
                values@.len() == s0.len() - self.stack@.len(),
                self.input == old(self).input,
                self.builtins == old(self).builtins,
                self.single_ops == old(self).single_ops,
                self.debug_log == old(self).debug_log,
                s0 == old(self).stack.deep_view(),
            decreases self.stack@.len() - h0,
        {
            let ghost n = self.stack@.len() as int;
            let ghost vpre = values@;
            let ghost vpred = values.deep_view();
            let ghost svpre = self.stack@;
            let ghost spred = self.stack.deep_view();
            let v = self.stack.pop().unwrap();
            values.insert(0, v);
            proof {
                assert(v == svpre.last());
                assert(spred[spred.len() - 1] == svpre[svpre.len() - 1].deep_view());
                assert(v.deep_view() == spred.last());
                assert(spred.last() == s0[n - 1]);
                assert(self.stack.deep_view() =~= s0.take(n - 1));
                assert(values@ == vpre.insert(0, v));
                assert forall|k: int|
                    0 <= k < values@.len() implies values.deep_view()[k] == s0.skip(n - 1).take(
                    s0.len() - (n - 1),
                )[k] by {
                    assert(values.deep_view()[k] == values@[k].deep_view());
                    if k == 0 {
                        assert(values@[0] == v);
                    } else {
                        assert(values@[k] == vpre[k - 1]);
                        assert(vpred[k - 1] == vpre[k - 1].deep_view());
                    }
                }
                assert(values.deep_view() =~= s0.skip(n - 1).take(s0.len() - (n - 1)));
            }
        }
        proof {
            assert(values.deep_view() =~= s0.skip(h0 as int));
        }
        proof {
            crate::value::lemma_vec_vals_view(values);
        }
        let wrapped = Value::Constructor(idx, values);
        self.stack.push(wrapped);
        proof {
            assert(self.stack.deep_view() =~= s0.take(h0 as int).push(
                ValV::Constructor(idx, s0.skip(h0 as int)),
            ));
        }
    }

    /// Pop the `count` values the operand block of a make-tuple
    /// instruction pushed and wrap them, in push order, in a tuple value.
    /// Reports underflow when the block left fewer than `count` values.
    pub fn finish_tuple(&mut self, count: usize, h0: usize) -> (r: Result<(), OrionError>)
        requires
            h0 <= old(self).stack@.len(),
        ensures
            old(self).stack@.len() - h0 < count ==> r == Err::<(), OrionError>(
                OrionError::StackUnderflow,
            ),
            old(self).stack@.len() - h0 >= count ==> r is Ok && final(self).stack.deep_view()
                == old(self).stack.deep_view().take(old(self).stack@.len() - count).push(
                ValV::Tuple(old(self).stack.deep_view().skip(old(self).stack@.len() - count)),
            ),
            final(self).input == old(self).input,
            final(self).builtins == old(self).builtins,
            final(self).single_ops == old(self).single_ops,
            final(self).debug_log == old(self).debug_log,
    {
        if self.stack.len() - h0 < count {
            return Err(OrionError::StackUnderflow);
        }
        let ghost s0 = self.stack.deep_view();
        let target = self.stack.len() - count;
        let mut values: Vec<Value> = Vec::new();
        while self.stack.len() > target
            invariant
                target <= self.stack@.len() <= s0.len(),
                self.stack.deep_view() == s0.take(self.stack@.len() as int),
                values.deep_view() == s0.skip(self.stack@.len() as int).take(
                    s0.len() - self.stack@.len(),
                ),
                s0.len() == old(self).stack@.len(),
                values@.len() == s0.len() - self.stack@.len(),
                self.input == old(self).input,
                self.builtins == old(self).builtins,
                self.single_ops == old(self).single_ops,
                self.debug_log == old(self).debug_log,
                s0 == old(self).stack.deep_view(),
            decreases self.stack@.len() - target,
        {
            let ghost n = self.stack@.len() as int;
            let ghost vpre = values@;
            let ghost vpred = values.deep_view();
            let ghost svpre = self.stack@;
            let ghost spred = self.stack.deep_view();
            let v = self.stack.pop().unwrap();
            values.insert(0, v);
            proof {
                assert(v == svpre.last());
                assert(spred[spred.len() - 1] == svpre[svpre.len() - 1].deep_view());
                assert(v.deep_view() == spred.last());
                assert(spred.last() == s0[n - 1]);
                assert(self.stack.deep_view() =~= s0.take(n - 1));
                assert(values@ == vpre.insert(0, v));
                assert forall|k: int|
                    0 <= k < values@.len() implies values.deep_view()[k] == s0.skip(n - 1).take(
                    s0.len() - (n - 1),
                )[k] by {
                    assert(values.deep_view()[k] == values@[k].deep_view());
                    if k == 0 {
                        assert(values@[0] == v);
                    } else {
                        assert(values@[k] == vpre[k - 1]);
                        assert(vpred[k - 1] == vpre[k - 1].deep_view());
                    }
                }
                assert(values.deep_view() =~= s0.skip(n - 1).take(s0.len() - (n - 1)));
            }
        }
        proof {
            assert(values.deep_view() =~= s0.skip(target as int));
        }
        proof {
            crate::value::lemma_vec_vals_view(values);
        }
        let wrapped = Value::Tuple(values);
        self.stack.push(wrapped);
        proof {
            assert(self.stack.deep_view() =~= s0.take(target as int).push(
                ValV::Tuple(s0.skip(target as int)),
            ));
        }
        Ok(())
    }

    /// Execute one non-block instruction against the context, with
    /// `depth` nested calls left.  [`opcode_post`] states what each
    /// opcode does.
    pub fn eval_opcode(&mut self, op: OpCode, ctx: &mut Vec<Value>, depth: usize) -> (r: Result<
        (),
        OrionError,
    >)
        ensures
            vm_frame(*old(self), *final(self)),
            opcode_post(
                *old(self),
                op,
                old(ctx).deep_view(),
                depth,
                *final(self),
                final(ctx).deep_view(),
                r,
            ),
            op_mirrors(
                *old(self),
                op,
                old(ctx).deep_view(),
                depth,
                *final(self),
                final(ctx).deep_view(),
                r,
            ),
        decreases depth, 0int, 1int,
    {
        let ghost s0 = self.stack.deep_view();
        let ghost ctx0 = ctx.deep_view();
        match op {
            OpCode::LoadConst(id) => {
                if (id as usize) < self.input.constants.len() {
                    let val = lit_value(&self.input.constants[id as usize]);
                    self.stack.push(val);
                    proof {
                        assert(self.stack.deep_view() =~= s0.push(
                            lit_to_val(self.input@.constants[id as int]),
                        ));
                        lemma_log_refl(self.debug_log.deep_view());
                    }
                    Ok(())
                } else {
                    proof {
                        lemma_log_refl(self.debug_log.deep_view());
                    }
                    Err(OrionError::InvalidBytecode)
                }
            },
            OpCode::LoadSym(id) => {
                if (id as usize) < ctx.len() {
                    let val = ctx[id as usize].duplicate();
                    self.stack.push(val);
                    proof {
                        assert(self.stack.deep_view() =~= s0.push(ctx0[id as int]));
                        lemma_log_refl(self.debug_log.deep_view());
                    }
                    Ok(())
                } else {
                    proof {
                        lemma_log_refl(self.debug_log.deep_view());
                    }
                    Err(OrionError::InvalidBytecode)
                }
            },
            OpCode::Def(id) => {
                proof {
                    lemma_log_refl(self.debug_log.deep_view());
                }
                match self.pop() {
                    Err(e) => Err(e),
                    Ok(popped) => {
                        if (id as usize) >= ctx.len() {
                            ctx.push(popped);
                            proof {
                                assert(ctx.deep_view() =~= ctx0.push(s0.last()));
                            }
                        } else {
                            ctx.set(id as usize, popped);
                            proof {
                                assert(ctx.deep_view() =~= ctx0.update(id as int, s0.last()));
                            }
                        }
                        Ok(())
                    },
                }
            },
            OpCode::Lambda(chunk) => {
                self.stack.push(Value::Lambda(chunk));
                proof {
                    assert(self.stack.deep_view() =~= s0.push(ValV::Lambda(chunk)));
                    lemma_log_refl(self.debug_log.deep_view());
                }
                Ok(())
            },
            OpCode::Call(argc) => self.eval_call(argc, ctx, depth),
            OpCode::Builtin(idx, argc) => {
                proof {
                    lemma_log_refl(self.debug_log.deep_view());
                }
                if (idx as usize) >= self.builtins.len() {
                    return Err(OrionError::InvalidBytecode);
                }
                let entry = self.builtins[idx as usize];
                if entry.1 != argc {
                    return Err(
                        OrionError::BuiltinArity { index: idx, expected: entry.1, given: argc },
                    );
                }
                match entry.0 {
                    Builtin::Add => {
                        match self.add() {
                            Err(e) => Err(e),
                            Ok(v) => {
                                let ghost vd = v.deep_view();
                                self.stack.push(v);
                                proof {
                                    if s0.len() >= 2 {
                                        assert(self.stack.deep_view() =~= s0.take(
                                            s0.len() - 2,
                                        ).push(vd));
                                        assert(self.stack.deep_view().take(s0.len() - 2) =~= s0.take(
                                            s0.len() - 2,
                                        ));
                                    }
                                }
                                Ok(())
                            },
                        }
                    },
                    Builtin::Dbg => {
                        match self.pop() {
                            Err(e) => Err(e),
                            Ok(v) => {
                                self.debug_log.push(v);
                                self.stack.push(Value::Unit);
                                proof {
                                    assert(self.stack.deep_view() =~= s0.drop_last().push(
                                        ValV::Unit,
                                    ));
                                    assert(self.debug_log.deep_view() =~= old(
                                        self,
                                    ).debug_log.deep_view().push(s0.last()));
                                    lemma_push_is_prefix(old(self).debug_log.deep_view(), s0.last());
                                }
                                Ok(())
                            },
                        }
                    },
                    Builtin::Unquote => {
                        match self.pop() {
                            Err(e) => Err(e),
                            Ok(v) => match v {
                                Value::Quoted(ops) => {
                                    if depth == 0 {
                                        return Err(OrionError::RecursionLimit);
                                    }
                                    let ghost mid = *self;
                                    let res = self.run_block(&ops, ctx, depth - 1);
                                    proof {
                                        lemma_frame_trans(*old(self), mid, *self);
                                        assert(mid.stack.deep_view() == s0.drop_last());
                                        assert(ops@ == s0.last()->Quoted_0);
                                    }
                                    res
                                },
                                _ => Err(OrionError::TypeMismatch),
                            },
                        }
                    },
                    Builtin::Native(tag) => {
                        if self.stack.len() < argc as usize {
                            return Err(OrionError::StackUnderflow);
                        }
                        let mut args: Vec<Value> = Vec::new();
                        let mut taken: usize = 0;
                        while taken < argc as usize
                            invariant
                                taken <= argc as usize,
                                s0 == old(self).stack.deep_view(),
                                s0.len() >= argc as usize,
                                self.stack@.len() == s0.len() - taken,
                                self.stack.deep_view() == s0.take(s0.len() - taken),
                                self.input == old(self).input,
                                self.builtins == old(self).builtins,
                                self.single_ops == old(self).single_ops,
                                self.debug_log == old(self).debug_log,
                            decreases argc as usize - taken,
                        {
                            let ghost n = self.stack@.len() as int;
                            let v = self.stack.pop().unwrap();
                            args.insert(0, v);
                            taken += 1;
                            proof {
                                assert(self.stack.deep_view() =~= s0.take(n - 1));
                            }
                        }
                        let ghost spopped = self.stack.deep_view();
                        match self.single_ops.native(tag, args) {
                            Ok(v) => {
                                self.stack.push(v);
                                proof {
                                    assert(self.stack.deep_view().take(s0.len() - argc)
                                        =~= spopped);
                                }
                                Ok(())
                            },
                            Err(e) => Err(e),
                        }
                    },
                }
            },
            OpCode::Constructor(idx, len) => {
                proof {
                    lemma_log_refl(self.debug_log.deep_view());
                }
                Err(OrionError::InvalidBytecode)
            },
            OpCode::Quote(len) => {
                proof {
                    lemma_log_refl(self.debug_log.deep_view());
                }
                Err(OrionError::InvalidBytecode)
            },
            OpCode::Tuple(len, count) => {
                proof {
                    lemma_log_refl(self.debug_log.deep_view());
                }
                Err(OrionError::InvalidBytecode)
            },
        }
    }

    /// Execute a call instruction: pop the arguments and the callee,
    /// check that the callee is a lambda of matching arity, snapshot the
    /// context, bind the parameter slots in place, run the chunk one
    /// level deeper, and restore the snapshot.
    fn eval_call(&mut self, argc: u16, ctx: &mut Vec<Value>, depth: usize) -> (r: Result<
        (),
        OrionError,
    >)
        ensures
            vm_frame(*old(self), *final(self)),
            opcode_post(
                *old(self),
                OpCode::Call(argc),
                old(ctx).deep_view(),
                depth,
                *final(self),
                final(ctx).deep_view(),
                r,
            ),
            op_mirrors(
                *old(self),
                OpCode::Call(argc),
                old(ctx).deep_view(),
                depth,
                *final(self),
                final(ctx).deep_view(),
                r,
            ),
        decreases depth, 0int, 0int,
    {
        let ghost s0 = self.stack.deep_view();
        let ghost ctx0 = ctx.deep_view();
        let ghost argsv = pushed_args(s0, argc as int);
        proof {
            lemma_log_refl(self.debug_log.deep_view());
        }
        if self.stack.len() < argc as usize + 1 {
            return Err(OrionError::StackUnderflow);
        }
        let mut args: Vec<Value> = Vec::new();
        let mut taken: usize = 0;
        while taken < argc as usize
            invariant
                taken <= argc as usize,
                self.stack@.len() == s0.len() - taken,
                s0.len() >= argc as usize + 1,
                self.stack.deep_view() == s0.take(s0.len() - taken),
                s0 == old(self).stack.deep_view(),
                argsv == pushed_args(s0, argc as int),
                self.input == old(self).input,
                self.builtins == old(self).builtins,
                self.single_ops == old(self).single_ops,
                self.debug_log == old(self).debug_log,
                args@.len() == taken,
                forall|j: int|
                    0 <= j < taken ==> (#[trigger] args@[j]).deep_view() == s0[s0.len() - 1 - j],
            decreases argc as usize - taken,
        {
            let ghost n = self.stack@.len() as int;
            let v = self.stack.pop().unwrap();
            args.push(v);
            taken += 1;
            proof {
                assert(self.stack.deep_view() =~= s0.take(n - 1));
                assert(v.deep_view() == s0.take(n)[n - 1]);
            }
        }
        let ghost spre = self.stack.deep_view();
        let ghost vpre = self.stack@;
        let func = self.stack.pop().unwrap();
        proof {
            assert(func == vpre.last());
            assert(spre[spre.len() - 1] == vpre[vpre.len() - 1].deep_view());
            assert(func.deep_view() == spre.last());
            assert(func.deep_view() == s0[s0.len() - argc - 1]);
            assert(self.stack.deep_view() =~= s0.take(s0.len() - argc - 1));
        }
        match func {
            Value::Lambda(chunk_id) => {
                if chunk_id as usize >= self.input.chunks.len() {
                    return Err(OrionError::InvalidBytecode);
                }
                let nparams = self.input.chunks[chunk_id as usize].reference.len();
                proof {
                    assert(self.input@.chunks[chunk_id as int].reference.len() == nparams as int);
                }
                if nparams != argc as usize {
                    return Err(
                        OrionError::CallArity { expected: nparams, given: argc as usize },
                    );
                }
                if depth == 0 {
                    return Err(OrionError::RecursionLimit);
                }
                let prev_ctx = duplicate_values(ctx);
                let ghost refseq = self.input@.chunks[chunk_id as int].reference;
                let ghost bound = bind_params_spec(ctx0, refseq, argsv);
                proof {
                    assert(refseq.skip(0) =~= refseq);
                    assert(argsv.skip(0) =~= argsv);
                }
                let mut idx: usize = 0;
                while idx < nparams
                    invariant
                        idx <= nparams,
                        nparams as int == refseq.len(),
                        refseq == self.input@.chunks[chunk_id as int].reference,
                        (chunk_id as int) < self.input@.chunks.len(),
                        args@.len() == nparams,
                        argsv.len() == nparams,
                        nparams == argc as usize,
                        s0.len() >= argc as usize + 1,
                        argsv == pushed_args(s0, argc as int),
                        s0 == old(self).stack.deep_view(),
                        forall|j: int|
                            0 <= j < nparams ==> (#[trigger] args@[j]).deep_view() == s0[s0.len()
                                - 1 - j],
                        bound == bind_params_spec(ctx0, refseq, argsv),
                        bound == bind_params_spec(
                            ctx.deep_view(),
                            refseq.skip(idx as int),
                            argsv.skip(idx as int),
                        ),
                        self.input == old(self).input,
                        self.builtins == old(self).builtins,
                        self.single_ops == old(self).single_ops,
                        self.debug_log == old(self).debug_log,
                    decreases nparams - idx,
                {
                    proof {
                        assert(refseq.skip(idx as int)[0] == refseq[idx as int]);
                        assert(refseq.skip(idx as int).drop_first() =~= refseq.skip(
                            idx as int + 1,
                        ));
                        assert(argsv.skip(idx as int)[0] == argsv[idx as int]);
                        assert(argsv.skip(idx as int).drop_first() =~= argsv.skip(idx as int + 1));
                    }
                    let slot = self.input.chunks[chunk_id as usize].reference[idx] as usize;
                    let val = args[nparams - 1 - idx].duplicate();
                    proof {
                        assert(args@[nparams - 1 - idx].deep_view() == s0[s0.len() - 1 - (nparams
                            - 1 - idx)]);
                        assert(val.deep_view() == argsv[idx as int]);
                    }
                    let ghost cpre = ctx.deep_view();
                    if slot >= ctx.len() {
                        ctx.push(val);
                        proof {
                            assert(ctx.deep_view() =~= cpre.push(argsv[idx as int]));
                        }
                    } else {
                        ctx.set(slot, val);
                        proof {
                            assert forall|k: int| 0 <= k < ctx.deep_view().len() implies
                                ctx.deep_view()[k] == cpre.update(slot as int, argsv[idx as int])[k]
                            by {
                                assert(ctx.deep_view()[k] == ctx@[k].deep_view());
                            }
                            assert(ctx.deep_view() =~= cpre.update(slot as int, argsv[idx as int]));
                        }
                    }
                    idx += 1;
                }
                proof {
                    assert(refseq.skip(nparams as int) =~= Seq::<u16>::empty());
                    assert(argsv.skip(nparams as int) =~= argsv.skip(nparams as int));
                    assert(bound == ctx.deep_view());
                }
                let chunk_ops = copy_opcodes(&self.input.chunks[chunk_id as usize].instructions);
                let ghost pre_run = *self;
                let ghost ctx_run = ctx.deep_view();
                match self.run_block(&chunk_ops, ctx, depth - 1) {
                    Err(e) => {
                        proof {
                            assert(pre_run.stack.deep_view() == s0.take(s0.len() - argc - 1));
                        }
                        Err(e)
                    },
                    Ok(()) => {
                        *ctx = prev_ctx;
                        proof {
                            assert(ctx.deep_view() == ctx0);
                            assert(pre_run.stack.deep_view() == s0.take(s0.len() - argc - 1));
                        }
                        Ok(())
                    },
                }
            },
            _ => Err(OrionError::NotCallable),
        }
    }

    /// Drive one instruction block: plain instructions execute one by
    /// one; a quote instruction stores its block unexecuted; construct
    /// and make-tuple instructions run their operand block and wrap what
    /// it pushed.
    fn run_block(&mut self, instrs: &Vec<OpCode>, ctx: &mut Vec<Value>, depth: usize) -> (r:
        Result<(), OrionError>)
        ensures
            vm_frame(*old(self), *final(self)),
            instrs@.len() == 0 ==> r is Ok && *final(self) == *old(self) && *final(ctx) == *old(
                ctx,
            ),
            run_mirrors(
                *old(self),
                instrs@,
                old(ctx).deep_view(),
                depth,
                *final(self),
                final(ctx).deep_view(),
                r,
            ),
        decreases depth, instrs@.len(), 2int,
    {
        let ghost bc = old(self).input@;
        let ghost bs = old(self).builtins@;
        let ghost s0 = old(self).stack.deep_view();
        let ghost ctx0 = old(ctx).deep_view();
        let ghost log0 = old(self).debug_log.deep_view();
        let ghost target = run_spec(bc, bs, instrs@, 0, s0, ctx0, log0, depth as int);
        proof {
            lemma_log_refl(log0);
        }
        if instrs.len() == 0 {
            return Ok(());
        }
        let mut i: usize = 0;
        while i < instrs.len()
            invariant
                i <= instrs@.len(),
                vm_frame(*old(self), *self),
                bc == old(self).input@,
                bs == old(self).builtins@,
                s0 == old(self).stack.deep_view(),
                ctx0 == old(ctx).deep_view(),
                log0 == old(self).debug_log.deep_view(),
                self.input@ == bc,
                self.builtins@ == bs,
                target == run_spec(bc, bs, instrs@, 0, s0, ctx0, log0, depth as int),
                target == run_spec(
                    bc,
                    bs,
                    instrs@,
                    i as int,
                    self.stack.deep_view(),
                    ctx.deep_view(),
                    self.debug_log.deep_view(),
                    depth as int,
                ) || target is Foreign,
            decreases instrs@.len() - i,
        {
            let ghost mid = *self;
            let ghost stack_in = self.stack.deep_view();
            let op = instrs[i];
            match op {
                OpCode::Quote(len) => {
                    let len = len as usize;
                    if instrs.len() - i - 1 < len {
                        return Err(OrionError::InvalidBytecode);
                    }
                    let block = collect_block(instrs, i, len);
                    self.stack.push(Value::Quoted(block));
                    proof {
                        assert(self.stack.deep_view() =~= stack_in.push(
                            ValV::Quoted(instrs@.subrange(i + 1, i as int + 1 + len)),
                        ));
                        lemma_frame_trans(*old(self), mid, *self);
                    }
                    i = i + 1 + len;
                },
                OpCode::Constructor(cidx, len) => {
                    let len = len as usize;
                    if instrs.len() - i - 1 < len {
                        return Err(OrionError::InvalidBytecode);
                    }
                    let block = collect_block(instrs, i, len);
                    let h0 = self.stack.len();
                    match self.run_block(&block, ctx, depth) {
                        Err(e) => {
                            proof {
                                lemma_frame_trans(*old(self), mid, *self);
                            }
                            return Err(e);
                        },
                        Ok(()) => {},
                    }
                    let ghost sub = *self;
                    if self.stack.len() < h0 {
                        // The operand block consumed below its own start:
                        // the container is malformed.
                        proof {
                            lemma_frame_trans(*old(self), mid, *self);
                        }
                        return Err(OrionError::InvalidBytecode);
                    }
                    self.finish_constructor(cidx, h0);
                    proof {
                        lemma_frame_trans(mid, sub, *self);
                        lemma_frame_trans(*old(self), mid, *self);
                    }
                    i = i + 1 + len;
                },
                OpCode::Tuple(len, count) => {
                    let len = len as usize;
                    if instrs.len() - i - 1 < len {
                        return Err(OrionError::InvalidBytecode);
                    }
                    let block = collect_block(instrs, i, len);
                    let h0 = self.stack.len();
                    match self.run_block(&block, ctx, depth) {
                        Err(e) => {
                            proof {
                                lemma_frame_trans(*old(self), mid, *self);
                            }
                            return Err(e);
                        },
                        Ok(()) => {},
                    }
                    let ghost sub = *self;
                    if self.stack.len() < h0 {
                        proof {
                            lemma_frame_trans(*old(self), mid, *self);
                        }
                        return Err(OrionError::InvalidBytecode);
                    }
                    match self.finish_tuple(count as usize, h0) {
                        Err(e) => {
                            proof {
                                lemma_frame_trans(mid, sub, *self);
                                lemma_frame_trans(*old(self), mid, *self);
                            }
                            return Err(e);
                        },
                        Ok(()) => {},
                    }
                    proof {
                        lemma_frame_trans(mid, sub, *self);
                        lemma_frame_trans(*old(self), mid, *self);
                    }
                    i = i + 1 + len;
                },
                _ => {
                    match self.eval_opcode(op, ctx, depth) {
                        Err(e) => {
                            proof {
                                lemma_frame_trans(*old(self), mid, *self);
                            }
                            return Err(e);
                        },
                        Ok(()) => {},
                    }
                    proof {
                        lemma_frame_trans(*old(self), mid, *self);
                    }
                    i += 1;
                },
            }
        }
        Ok(())
    }

    /// Execute the top-level instruction stream against a fresh, empty
    /// context and return the final context: the program's top-level
    /// bindings.
    pub fn eval(&mut self) -> (r: Result<Vec<Value>, OrionError>)
        ensures
            vm_frame(*old(self), *final(self)),
            old(self).input@.instructions.len() == 0 ==> r is Ok && *final(self) == *old(self),
            r matches Ok(c) ==> (old(self).input@.instructions.len() == 0 ==> c@.len() == 0),
            match run_spec(
                old(self).input@,
                old(self).builtins@,
                old(self).input@.instructions,
                0,
                old(self).stack.deep_view(),
                Seq::<ValV>::empty(),
                old(self).debug_log.deep_view(),
                MAX_CALL_DEPTH as int,
            ) {
                RunOut::Done { stack, ctx, log } => r matches Ok(c) && c.deep_view() == ctx
                    && final(self).stack.deep_view() == stack && final(self).debug_log.deep_view()
                    == log,
                RunOut::Fail { err } => r == Err::<Vec<Value>, OrionError>(err),
                RunOut::Foreign => true,
            },
    {
        let program = copy_opcodes(&self.input.instructions);
        let mut ctx: Vec<Value> = Vec::new();
        proof {
            assert(ctx.deep_view() =~= Seq::<ValV>::empty());
        }
        match self.run_block(&program, &mut ctx, MAX_CALL_DEPTH) {
            Ok(()) => Ok(ctx),
            Err(e) => Err(e),
        }
    }
}

/// The call arity gate: executing a call instruction whose callee is a
/// lambda of N parameters with M, M != N, arguments on the stack fails
/// with an arity mismatch reporting both counts, whatever N and M are.
pub proof fn lemma_call_arity_gate<S: SingleOps>(
    pre: VM<S>,
    argc: u16,
    ctx0: Seq<ValV>,
    depth: usize,
    post: VM<S>,
    ctx1: Seq<ValV>,
    r: Result<(), OrionError>,
)
    requires
        opcode_post(pre, OpCode::Call(argc), ctx0, depth, post, ctx1, r),
        pre.stack.deep_view().len() >= argc as int + 1,
        pre.stack.deep_view()[pre.stack.deep_view().len() - argc - 1] matches ValV::Lambda(c)
            && (c as int) < pre.input@.chunks.len() && pre.input@.chunks[c as int].reference.len()
            != argc as int,
    ensures
        pre.stack.deep_view()[pre.stack.deep_view().len() - argc - 1] matches ValV::Lambda(c)
            ==> r == Err::<(), OrionError>(
            OrionError::CallArity {
                expected: pre.input@.chunks[c as int].reference.len() as usize,
                given: argc as usize,
            },
        ),
{
}

/// Context isolation: a call that returns successfully leaves the
/// caller's context exactly as it was, whatever the callee bound or
/// defined while it ran.
pub proof fn lemma_context_isolation<S: SingleOps>(
    pre: VM<S>,
    argc: u16,
    ctx0: Seq<ValV>,
    depth: usize,
    post: VM<S>,
    ctx1: Seq<ValV>,
    r: Result<(), OrionError>,
)
    requires
        opcode_post(pre, OpCode::Call(argc), ctx0, depth, post, ctx1, r),
        pre.stack.deep_view().len() >= argc as int + 1,
        r is Ok,
    ensures
        ctx1 == ctx0,
{
    let s0 = pre.stack.deep_view();
    match s0[s0.len() - argc - 1] {
        ValV::Lambda(c) => {
        },
        _ => {
        },
    }
}

/// A log extends itself.
pub proof fn lemma_log_refl(log: Seq<ValV>)
    ensures
        log.is_prefix_of(log),
{
    assert(log =~= log.subrange(0, log.len() as int));
}

/// A pushed log keeps its old part.
pub proof fn lemma_push_is_prefix(log: Seq<ValV>, v: ValV)
    ensures
        log.is_prefix_of(log.push(v)),
{
    assert(log =~= log.push(v).subrange(0, log.len() as int));
}

/// Chaining two frame-preserving steps preserves the frame.
pub proof fn lemma_frame_trans<S: SingleOps>(a: VM<S>, b: VM<S>, c: VM<S>)
    requires
        vm_frame(a, b),
        vm_frame(b, c),
    ensures
        vm_frame(a, c),
{
    let x = a.debug_log.deep_view();
    let y = b.debug_log.deep_view();
    let z = c.debug_log.deep_view();
    assert forall|i: int| 0 <= i < x.len() implies x[i] == z.subrange(0, x.len() as int)[i] by {
        assert(x[i] == y.subrange(0, x.len() as int)[i]);
        assert(y[i] == z.subrange(0, y.len() as int)[i]);
    }
    assert(x =~= z.subrange(0, x.len() as int));
}

/// Copy the operand block of length `len` that follows position `i`.
fn collect_block(instrs: &Vec<OpCode>, i: usize, len: usize) -> (r: Vec<OpCode>)
    requires
        i + 1 + len <= instrs@.len(),
    ensures
        r@ == instrs@.subrange(i + 1, i + 1 + len),
{
    let n = instrs.len();
    let end = i + 1 + len;
    let mut block: Vec<OpCode> = Vec::new();
    let mut j: usize = i + 1;
    while j < end
        invariant
            i + 1 <= j <= end,
            end == i + 1 + len,
            end <= instrs@.len(),
            block@ == instrs@.subrange(i + 1, j as int),
        decreases end - j,
    {
        block.push(instrs[j]);
        j += 1;
        proof {
            assert(block@ =~= instrs@.subrange(i + 1, j as int));
        }
    }
    proof {
        assert(block@ =~= instrs@.subrange(i + 1, i + 1 + len));
    }
    block
}

/// Materialize one constant pool entry as a runtime value.
fn lit_value(lit: &crate::ast::Literal) -> (r: Value)
    ensures
        r.deep_view() == lit_to_val(lit@),
{
    match lit {
        crate::ast::Literal::Integer(i) => Value::Integer(*i),
        crate::ast::Literal::Single(bits) => Value::Single(*bits),
        crate::ast::Literal::Str(s) => Value::Str(s.clone()),
        crate::ast::Literal::Unit => Value::Unit,
    }
}

} // verus!
