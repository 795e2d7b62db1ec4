//! The numeric builtins: binary arithmetic on integers and singles, and
//! unary negation and trigonometry.  Each pops its operands off the
//! operand stack, checks their tags, and returns the result value;
//! integer arithmetic wraps around, and everything on singles is
//! delegated to the embedder's [`SingleOps`].

use vstd::prelude::*;

use crate::errors::OrionError;
use crate::value::{ValV, Value};
use crate::vm::{SingleOps, VM};

verus! {

/// What every arithmetic builtin leaves untouched.
pub open spec fn arith_frame<S: SingleOps>(pre: VM<S>, post: VM<S>) -> bool {
    &&& post.input == pre.input
    &&& post.builtins == pre.builtins
    &&& post.single_ops == pre.single_ops
    &&& post.debug_log == pre.debug_log
}

/// The stack after a binary arithmetic builtin took its two operands.
pub open spec fn took2(s0: Seq<ValV>, s1: Seq<ValV>) -> bool {
    s1 == s0.take(s0.len() - 2)
}

/// The stack after a unary arithmetic builtin took its operand.
pub open spec fn took1(s0: Seq<ValV>, s1: Seq<ValV>) -> bool {
    s1 == s0.drop_last()
}

impl<S: SingleOps> VM<S> {
    /// Numeric addition: two integers wrap around 32 bits; two singles
    /// are handed to the embedder; anything else is a type mismatch.
    pub fn add(&mut self) -> (r: Result<Value, OrionError>)
        ensures
            arith_frame(*old(self), *final(self)),
            old(self).stack@.len() < 2 ==> r == Err::<Value, OrionError>(
                OrionError::StackUnderflow,
            ) && final(self).stack@.len() == 0,
            old(self).stack@.len() >= 2 ==> {
                let s0 = old(self).stack.deep_view();
                &&& took2(s0, final(self).stack.deep_view())
                &&& match (s0[s0.len() - 2], s0[s0.len() - 1]) {
                    (ValV::Integer(l), ValV::Integer(rv)) => r matches Ok(v) && v.deep_view()
                        == ValV::Integer(l.wrapping_add(rv)),
                    (ValV::Single(l), ValV::Single(rv)) => r matches Ok(v) && v.deep_view()
                        is Single,
                    _ => r == Err::<Value, OrionError>(OrionError::TypeMismatch),
                }
            },
    {
        let rhs = self.pop()?;
        let lhs = self.pop()?;
        proof {
            let s0 = old(self).stack.deep_view();
            assert(s0.drop_last().drop_last() =~= s0.take(s0.len() - 2));
            assert(s0.drop_last().last() == s0[s0.len() - 2]);
        }
        match lhs {
            Value::Integer(l) => match rhs {
                Value::Integer(rv) => Ok(Value::Integer(l.wrapping_add(rv))),
                _ => Err(OrionError::TypeMismatch),
            },
            Value::Single(l) => match rhs {
                Value::Single(rv) => Ok(Value::Single(self.single_ops.add(l, rv))),
                _ => Err(OrionError::TypeMismatch),
            },
            _ => Err(OrionError::TypeMismatch),
        }
    }

    /// Numeric subtraction, operands in push order: the earlier-pushed
    /// operand minus the stack top.
    pub fn sub(&mut self) -> (r: Result<Value, OrionError>)
        ensures
            arith_frame(*old(self), *final(self)),
            old(self).stack@.len() < 2 ==> r == Err::<Value, OrionError>(
                OrionError::StackUnderflow,
            ),
            old(self).stack@.len() >= 2 ==> {
                let s0 = old(self).stack.deep_view();
                &&& took2(s0, final(self).stack.deep_view())
                &&& match (s0[s0.len() - 2], s0[s0.len() - 1]) {
                    (ValV::Integer(l), ValV::Integer(rv)) => r matches Ok(v) && v.deep_view()
                        == ValV::Integer(l.wrapping_sub(rv)),
                    (ValV::Single(l), ValV::Single(rv)) => r matches Ok(v) && v.deep_view()
                        is Single,
                    _ => r == Err::<Value, OrionError>(OrionError::TypeMismatch),
                }
            },
    {
        let rhs = self.pop()?;
        let lhs = self.pop()?;
        proof {
            let s0 = old(self).stack.deep_view();
            assert(s0.drop_last().drop_last() =~= s0.take(s0.len() - 2));
            assert(s0.drop_last().last() == s0[s0.len() - 2]);
        }
        match lhs {
            Value::Integer(l) => match rhs {
                Value::Integer(rv) => Ok(Value::Integer(l.wrapping_sub(rv))),
                _ => Err(OrionError::TypeMismatch),
            },
            Value::Single(l) => match rhs {
                Value::Single(rv) => Ok(Value::Single(self.single_ops.sub(l, rv))),
                _ => Err(OrionError::TypeMismatch),
            },
            _ => Err(OrionError::TypeMismatch),
        }
    }

    /// Numeric multiplication.
    pub fn mul(&mut self) -> (r: Result<Value, OrionError>)
        ensures
            arith_frame(*old(self), *final(self)),
            old(self).stack@.len() < 2 ==> r == Err::<Value, OrionError>(
                OrionError::StackUnderflow,
            ),
            old(self).stack@.len() >= 2 ==> {
                let s0 = old(self).stack.deep_view();
                &&& took2(s0, final(self).stack.deep_view())
                &&& match (s0[s0.len() - 2], s0[s0.len() - 1]) {
                    (ValV::Integer(l), ValV::Integer(rv)) => r matches Ok(v) && v.deep_view()
                        == ValV::Integer(l.wrapping_mul(rv)),
                    (ValV::Single(l), ValV::Single(rv)) => r matches Ok(v) && v.deep_view()
                        is Single,
                    _ => r == Err::<Value, OrionError>(OrionError::TypeMismatch),
                }
            },
    {
        let rhs = self.pop()?;
        let lhs = self.pop()?;
        proof {
            let s0 = old(self).stack.deep_view();
            assert(s0.drop_last().drop_last() =~= s0.take(s0.len() - 2));
            assert(s0.drop_last().last() == s0[s0.len() - 2]);
        }
        match lhs {
            Value::Integer(l) => match rhs {
                Value::Integer(rv) => Ok(Value::Integer(l.wrapping_mul(rv))),
                _ => Err(OrionError::TypeMismatch),
            },
            Value::Single(l) => match rhs {
                Value::Single(rv) => Ok(Value::Single(self.single_ops.mul(l, rv))),
                _ => Err(OrionError::TypeMismatch),
            },
            _ => Err(OrionError::TypeMismatch),
        }
    }

    /// Numeric division, truncating toward zero; a zero integer divisor
    /// is reported, and the one overflowing quotient wraps.
    pub fn div(&mut self) -> (r: Result<Value, OrionError>)
        ensures
            arith_frame(*old(self), *final(self)),
            old(self).stack@.len() < 2 ==> r == Err::<Value, OrionError>(
                OrionError::StackUnderflow,
            ),
            old(self).stack@.len() >= 2 ==> {
                let s0 = old(self).stack.deep_view();
                &&& took2(s0, final(self).stack.deep_view())
                &&& match (s0[s0.len() - 2], s0[s0.len() - 1]) {
                    (ValV::Integer(l), ValV::Integer(rv)) => if rv == 0 {
                        r == Err::<Value, OrionError>(OrionError::DivisionByZero)
                    } else {
                        r matches Ok(v) && v.deep_view() == ValV::Integer(
                            match l.checked_div(rv) {
                                Some(q) => q,
                                None => i32::MIN,
                            },
                        )
                    },
                    (ValV::Single(l), ValV::Single(rv)) => r matches Ok(v) && v.deep_view()
                        is Single,
                    _ => r == Err::<Value, OrionError>(OrionError::TypeMismatch),
                }
            },
    {
        let rhs = self.pop()?;
        let lhs = self.pop()?;
        proof {
            let s0 = old(self).stack.deep_view();
            assert(s0.drop_last().drop_last() =~= s0.take(s0.len() - 2));
            assert(s0.drop_last().last() == s0[s0.len() - 2]);
        }
        match lhs {
            Value::Integer(l) => match rhs {
                Value::Integer(rv) => {
                    if rv == 0 {
                        Err(OrionError::DivisionByZero)
                    } else {
                        match l.checked_div(rv) {
                            Some(q) => Ok(Value::Integer(q)),
                            None => Ok(Value::Integer(i32::MIN)),
                        }
                    }
                },
                _ => Err(OrionError::TypeMismatch),
            },
            Value::Single(l) => match rhs {
                Value::Single(rv) => Ok(Value::Single(self.single_ops.div(l, rv))),
                _ => Err(OrionError::TypeMismatch),
            },
            _ => Err(OrionError::TypeMismatch),
        }
    }

    /// Numeric negation; the one overflowing integer wraps to itself.
    pub fn neg(&mut self) -> (r: Result<Value, OrionError>)
        ensures
            arith_frame(*old(self), *final(self)),
            old(self).stack@.len() == 0 ==> r == Err::<Value, OrionError>(
                OrionError::StackUnderflow,
            ),
            old(self).stack@.len() > 0 ==> {
                let s0 = old(self).stack.deep_view();
                &&& took1(s0, final(self).stack.deep_view())
                &&& match s0.last() {
                    ValV::Integer(l) => r matches Ok(v) && v.deep_view() == ValV::Integer(
                        if l == i32::MIN {
                            i32::MIN
                        } else {
                            (-(l as int)) as i32
                        },
                    ),
                    ValV::Single(l) => r matches Ok(v) && v.deep_view() is Single,
                    _ => r == Err::<Value, OrionError>(OrionError::TypeMismatch),
                }
            },
    {
        let val = self.pop()?;
        match val {
            Value::Integer(l) => {
                if l == i32::MIN {
                    Ok(Value::Integer(i32::MIN))
                } else {
                    Ok(Value::Integer(-l))
                }
            },
            Value::Single(l) => Ok(Value::Single(self.single_ops.neg(l))),
            _ => Err(OrionError::TypeMismatch),
        }
    }

    /// Cosine of a single, through the embedder.
    pub fn cos(&mut self) -> (r: Result<Value, OrionError>)
        ensures
            arith_frame(*old(self), *final(self)),
            old(self).stack@.len() == 0 ==> r == Err::<Value, OrionError>(
                OrionError::StackUnderflow,
            ),
            old(self).stack@.len() > 0 ==> {
                let s0 = old(self).stack.deep_view();
                &&& took1(s0, final(self).stack.deep_view())
                &&& match s0.last() {
                    ValV::Single(l) => r matches Ok(v) && v.deep_view() is Single,
                    _ => r == Err::<Value, OrionError>(OrionError::TypeMismatch),
                }
            },
    {
        let val = self.pop()?;
        match val {
            Value::Single(l) => Ok(Value::Single(self.single_ops.cos(l))),
            _ => Err(OrionError::TypeMismatch),
        }
    }

    /// Sine of a single, through the embedder.
    pub fn sin(&mut self) -> (r: Result<Value, OrionError>)
        ensures
            arith_frame(*old(self), *final(self)),
            old(self).stack@.len() == 0 ==> r == Err::<Value, OrionError>(
                OrionError::StackUnderflow,
            ),
            old(self).stack@.len() > 0 ==> {
                let s0 = old(self).stack.deep_view();
                &&& took1(s0, final(self).stack.deep_view())
                &&& match s0.last() {
                    ValV::Single(l) => r matches Ok(v) && v.deep_view() is Single,
                    _ => r == Err::<Value, OrionError>(OrionError::TypeMismatch),
                }
            },
    {
        let val = self.pop()?;
        match val {
            Value::Single(l) => Ok(Value::Single(self.single_ops.sin(l))),
            _ => Err(OrionError::TypeMismatch),
        }
    }

    /// Tangent of a single, through the embedder.
    pub fn tan(&mut self) -> (r: Result<Value, OrionError>)
        ensures
            arith_frame(*old(self), *final(self)),
            old(self).stack@.len() == 0 ==> r == Err::<Value, OrionError>(
                OrionError::StackUnderflow,
            ),
            old(self).stack@.len() > 0 ==> {
                let s0 = old(self).stack.deep_view();
                &&& took1(s0, final(self).stack.deep_view())
                &&& match s0.last() {
                    ValV::Single(l) => r matches Ok(v) && v.deep_view() is Single,
                    _ => r == Err::<Value, OrionError>(OrionError::TypeMismatch),
                }
            },
    {
        let val = self.pop()?;
        match val {
            Value::Single(l) => Ok(Value::Single(self.single_ops.tan(l))),
            _ => Err(OrionError::TypeMismatch),
        }
    }

    /// Arc cosine of a single, through the embedder.
    pub fn acos(&mut self) -> (r: Result<Value, OrionError>)
        ensures
            arith_frame(*old(self), *final(self)),
            old(self).stack@.len() == 0 ==> r == Err::<Value, OrionError>(
                OrionError::StackUnderflow,
            ),
            old(self).stack@.len() > 0 ==> {
                let s0 = old(self).stack.deep_view();
                &&& took1(s0, final(self).stack.deep_view())
                &&& match s0.last() {
                    ValV::Single(l) => r matches Ok(v) && v.deep_view() is Single,
                    _ => r == Err::<Value, OrionError>(OrionError::TypeMismatch),
                }
            },
    {
        let val = self.pop()?;
        match val {
            Value::Single(l) => Ok(Value::Single(self.single_ops.acos(l))),
            _ => Err(OrionError::TypeMismatch),
        }
    }

    /// Arc sine of a single, through the embedder.
    pub fn asin(&mut self) -> (r: Result<Value, OrionError>)
        ensures
            arith_frame(*old(self), *final(self)),
            old(self).stack@.len() == 0 ==> r == Err::<Value, OrionError>(
                OrionError::StackUnderflow,
            ),
            old(self).stack@.len() > 0 ==> {
                let s0 = old(self).stack.deep_view();
                &&& took1(s0, final(self).stack.deep_view())
                &&& match s0.last() {
                    ValV::Single(l) => r matches Ok(v) && v.deep_view() is Single,
                    _ => r == Err::<Value, OrionError>(OrionError::TypeMismatch),
                }
            },
    {
        let val = self.pop()?;
        match val {
            Value::Single(l) => Ok(Value::Single(self.single_ops.asin(l))),
            _ => Err(OrionError::TypeMismatch),
        }
    }

    /// Arc tangent of a single, through the embedder.
    pub fn atan(&mut self) -> (r: Result<Value, OrionError>)
        ensures
            arith_frame(*old(self), *final(self)),
            old(self).stack@.len() == 0 ==> r == Err::<Value, OrionError>(
                OrionError::StackUnderflow,
            ),
            old(self).stack@.len() > 0 ==> {
                let s0 = old(self).stack.deep_view();
                &&& took1(s0, final(self).stack.deep_view())
                &&& match s0.last() {
                    ValV::Single(l) => r matches Ok(v) && v.deep_view() is Single,
                    _ => r == Err::<Value, OrionError>(OrionError::TypeMismatch),
                }
            },
    {
        let val = self.pop()?;
        match val {
            Value::Single(l) => Ok(Value::Single(self.single_ops.atan(l))),
            _ => Err(OrionError::TypeMismatch),
        }
    }
}

} // verus!
