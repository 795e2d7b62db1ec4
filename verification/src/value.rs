//! The runtime representation of all computed data.  Values are compared
//! and duplicated by structural copy; no state is shared between values.
//! Singles (32-bit floats) are carried as their raw IEEE 754 bit pattern;
//! arithmetic on them is delegated to the embedder (see [`crate::vm`]).

use vstd::prelude::*;

use crate::bytecode::OpCode;

verus! {

/// A runtime value.  Copies are made structurally through
/// [`Value::duplicate`].
#[derive(Debug)]
pub enum Value {
    Integer(i32),
    Single(u32),
    Str(String),
    Unit,
    /// A closure reference: the id of its chunk in the bytecode container.
    Lambda(u16),
    /// An ordered sequence of values.
    Tuple(Vec<Value>),
    /// An applied algebraic constructor: its index and contained values.
    Constructor(u16, Vec<Value>),
    /// An unexecuted block of instructions.
    Quoted(Vec<OpCode>),
}

/// The mathematical image of a [`Value`].
#[verifier::ext_equal]
pub enum ValV {
    Integer(i32),
    Single(u32),
    Str(Seq<char>),
    Unit,
    Lambda(u16),
    Tuple(Seq<ValV>),
    Constructor(u16, Seq<ValV>),
    Quoted(Seq<OpCode>),
}

impl DeepView for Value {
    type V = ValV;

    open spec fn deep_view(&self) -> ValV
        decreases self,
    {
        match self {
            Value::Integer(i) => ValV::Integer(*i),
            Value::Single(bits) => ValV::Single(*bits),
            Value::Str(s) => ValV::Str(s@),
            Value::Unit => ValV::Unit,
            Value::Lambda(chunk) => ValV::Lambda(*chunk),
            Value::Tuple(vs) => {
                proof {
                    broadcast use vstd::std_specs::vec::group_vec_axioms;

                    assert(decreases_to!(self => vs));
                    assert(decreases_to!(vs => vs@));
                }
                ValV::Tuple(vals_view(vs@))
            },
            Value::Constructor(idx, vs) => {
                proof {
                    broadcast use vstd::std_specs::vec::group_vec_axioms;

                    assert(decreases_to!(self => vs));
                    assert(decreases_to!(vs => vs@));
                }
                ValV::Constructor(*idx, vals_view(vs@))
            },
            Value::Quoted(ops) => ValV::Quoted(ops@),
        }
    }
}

/// The mathematical image of a sequence of values, element by element.
pub open spec fn vals_view(vs: Seq<Value>) -> Seq<ValV>
    decreases vs,
{
    if vs.len() == 0 {
        Seq::empty()
    } else {
        proof {
            broadcast use vstd::seq::group_seq_axioms;

            assert(decreases_to!(vs => vs[vs.len() - 1]));
            vstd::seq::axiom_seq_len_decreases(vs, vs.drop_last());
        }
        vals_view(vs.drop_last()).push(vs.last().deep_view())
    }
}

/// `vals_view` maps each element to its deep view.
pub proof fn lemma_vals_view(vs: Seq<Value>)
    ensures
        vals_view(vs).len() == vs.len(),
        forall|i: int| 0 <= i < vs.len() ==> vals_view(vs)[i] == (#[trigger] vs[i]).deep_view(),
    decreases vs.len(),
{
    if vs.len() > 0 {
        lemma_vals_view(vs.drop_last());
        assert(vals_view(vs) == vals_view(vs.drop_last()).push(vs.last().deep_view()));
        assert forall|i: int| 0 <= i < vs.len() implies vals_view(vs)[i] == (
        #[trigger] vs[i]).deep_view() by {
            if i < vs.len() - 1 {
                assert(vs.drop_last()[i] == vs[i]);
                assert(vals_view(vs)[i] == vals_view(vs.drop_last())[i]);
            } else {
                assert(vals_view(vs)[i] == vs.last().deep_view());
            }
        }
    }
}

/// The deep view of a vector of values is `vals_view` of its elements.
pub proof fn lemma_vec_vals_view(vs: Vec<Value>)
    ensures
        vals_view(vs@) == vs.deep_view(),
{
    lemma_vals_view(vs@);
    assert(vals_view(vs@) =~= vs.deep_view());
}

/// An exact copy of a vector of opcodes.
pub fn copy_opcodes(ops: &Vec<OpCode>) -> (r: Vec<OpCode>)
    ensures
        r@ == ops@,
{
    let mut r: Vec<OpCode> = Vec::new();
    let mut i: usize = 0;
    while i < ops.len()
        invariant
            i <= ops@.len(),
            r@ == ops@.subrange(0, i as int),
        decreases ops@.len() - i,
    {
        r.push(ops[i]);
        i += 1;
        proof {
            assert(r@ =~= ops@.subrange(0, i as int));
        }
    }
    proof {
        assert(r@ =~= ops@);
    }
    r
}

impl Value {
    /// A structural copy: the duplicate denotes the same mathematical
    /// value.
    pub fn duplicate(&self) -> (r: Value)
        ensures
            r.deep_view() == self.deep_view(),
        decreases self,
    {
        match self {
            Value::Integer(i) => Value::Integer(*i),
            Value::Single(bits) => Value::Single(*bits),
            Value::Str(s) => Value::Str(s.clone()),
            Value::Unit => Value::Unit,
            Value::Lambda(chunk) => Value::Lambda(*chunk),
            Value::Tuple(vs) => {
                proof {
                    broadcast use vstd::std_specs::vec::group_vec_axioms;

                    assert(decreases_to!(self => vs));
                }
                let dups = duplicate_values(vs);
                let r = Value::Tuple(dups);
                proof {
                    lemma_vec_vals_view(dups);
                    lemma_vec_vals_view(*vs);
                }
                r
            },
            Value::Constructor(idx, vs) => {
                proof {
                    broadcast use vstd::std_specs::vec::group_vec_axioms;

                    assert(decreases_to!(self => vs));
                }
                let dups = duplicate_values(vs);
                let r = Value::Constructor(*idx, dups);
                proof {
                    lemma_vec_vals_view(dups);
                    lemma_vec_vals_view(*vs);
                }
                r
            },
            Value::Quoted(ops) => Value::Quoted(copy_opcodes(ops)),
        }
    }
}

/// A structural copy of a vector of values, element by element.
pub fn duplicate_values(vs: &Vec<Value>) -> (r: Vec<Value>)
    ensures
        r.deep_view() == vs.deep_view(),
    decreases vs,
{
    let mut r: Vec<Value> = Vec::new();
    let mut i: usize = 0;
    while i < vs.len()
        invariant
            i <= vs@.len(),
            r@.len() == i,
            forall|j: int| 0 <= j < i ==> r@[j].deep_view() == (#[trigger] vs@[j]).deep_view(),
        decreases vs@.len() - i,
    {
        proof {
            broadcast use vstd::std_specs::vec::group_vec_axioms;
            broadcast use vstd::seq::group_seq_axioms;

            assert(decreases_to!(vs => vs@));
            assert(decreases_to!(vs@ => vs@[i as int]));
        }
        let dup = vs[i].duplicate();
        r.push(dup);
        i += 1;
    }
    proof {
        assert(r.deep_view().len() == r@.len());
        assert(vs.deep_view().len() == vs@.len());
        assert forall|j: int| 0 <= j < vs@.len() implies r.deep_view()[j] == vs.deep_view()[j] by {
            assert(r.deep_view()[j] == r@[j].deep_view());
            assert(vs.deep_view()[j] == vs@[j].deep_view());
        }
        assert(r.deep_view() =~= vs.deep_view());
    }
    r
}

} // verus!
