//! The compiled program: a flat instruction stream, a deduplicated constant
//! pool, closure templates ("chunks"), the declared symbol names, and the
//! registered constructor arities.  The virtual machine indexes into every
//! table purely by position, so the compiler keeps each table append-only
//! and every id stable once assigned.

use vstd::prelude::*;

use crate::ast::{LitV, Literal};

verus! {

/// One instruction of the virtual machine.
#[derive(Clone, Copy, Debug, PartialEq, Eq, Structural)]
pub enum OpCode {
    /// Push the materialized value of the constant with this id.
    LoadConst(u16),
    /// Push a copy of the context entry at this slot.
    LoadSym(u16),
    /// Pop the stack top into the context entry at this slot, growing the
    /// context by one slot if the slot is just past its end.
    Def(u16),
    /// Push a lambda value referring to the chunk with this id.
    Lambda(u16),
    /// Pop this many arguments and then the callee, and invoke it.
    Call(u16),
    /// Invoke the builtin at the first index with the second argument count.
    Builtin(u8, u8),
    /// Build a constructor value: constructor index, then the flattened
    /// length of the operand instructions that follow this opcode.  The
    /// length (rather than a bare value count) is what lets the evaluator
    /// delimit the operand block, exactly as the make-tuple instruction
    /// does.
    Constructor(u16, u16),
    /// Push the next so-many instructions as an opaque quoted block.
    Quote(u16),
    /// Build a tuple: flattened length of the operand instructions that
    /// follow, then the element count.
    Tuple(u16, u16),
}

/// A compiled closure template: its own instruction sequence plus the
/// context slots its formal parameters bind to when called.  A chunk does
/// not capture its defining environment; the virtual machine supplies the
/// caller's live context at invocation time.
#[derive(Clone, Debug)]
pub struct Chunk {
    pub instructions: Vec<OpCode>,
    /// The context slot of each formal parameter, in parameter order.
    pub reference: Vec<u16>,
}

/// The mathematical image of a [`Chunk`].
pub struct ChunkV {
    pub instructions: Seq<OpCode>,
    pub reference: Seq<u16>,
}

impl View for Chunk {
    type V = ChunkV;

    open spec fn view(&self) -> ChunkV {
        ChunkV { instructions: self.instructions@, reference: self.reference@ }
    }
}

impl DeepView for Chunk {
    type V = ChunkV;

    open spec fn deep_view(&self) -> ChunkV {
        self.view()
    }
}

/// The compiled unit handed, complete and immutable, to the virtual
/// machine.
#[derive(Clone, Debug)]
pub struct Bytecode {
    /// The top-level instruction stream.
    pub instructions: Vec<OpCode>,
    /// The deduplicated constant pool; positions are the 16-bit constant
    /// ids.
    pub constants: Vec<Literal>,
    /// The declared symbol names; positions are the run-time slot indices.
    pub symbols: Vec<String>,
    /// The registered constructor arities; positions are the constructor
    /// indices.
    pub constructors: Vec<u8>,
    /// The closure templates; positions are the 16-bit chunk ids.
    pub chunks: Vec<Chunk>,
}

/// The mathematical image of a [`Bytecode`].
pub struct BytecodeV {
    pub instructions: Seq<OpCode>,
    pub constants: Seq<LitV>,
    pub symbols: Seq<Seq<char>>,
    pub constructors: Seq<u8>,
    pub chunks: Seq<ChunkV>,
}

impl View for Bytecode {
    type V = BytecodeV;

    open spec fn view(&self) -> BytecodeV {
        BytecodeV {
            instructions: self.instructions@,
            constants: self.constants.deep_view(),
            symbols: self.symbols.deep_view(),
            constructors: self.constructors@,
            chunks: self.chunks.deep_view(),
        }
    }
}

/// A structural copy of a vector of literals.
fn dup_literals(v: &Vec<Literal>) -> (r: Vec<Literal>)
    ensures
        r.deep_view() == v.deep_view(),
{
    let mut r: Vec<Literal> = Vec::new();
    let mut i: usize = 0;
    while i < v.len()
        invariant
            i <= v@.len(),
            r@.len() == i,
            forall|j: int| 0 <= j < i ==> (#[trigger] r@[j])@ == v@[j]@,
        decreases v@.len() - i,
    {
        let d = v[i].duplicate();
        r.push(d);
        i += 1;
    }
    proof {
        assert forall|j: int| 0 <= j < v@.len() implies r.deep_view()[j] == v.deep_view()[j] by {
            assert(r.deep_view()[j] == r@[j]@);
            assert(v.deep_view()[j] == v@[j]@);
        }
        assert(r.deep_view() =~= v.deep_view());
    }
    r
}

/// A structural copy of a vector of names.
fn dup_strings(v: &Vec<String>) -> (r: Vec<String>)
    ensures
        r.deep_view() == v.deep_view(),
{
    let mut r: Vec<String> = Vec::new();
    let mut i: usize = 0;
    while i < v.len()
        invariant
            i <= v@.len(),
            r@.len() == i,
            forall|j: int| 0 <= j < i ==> (#[trigger] r@[j])@ == v@[j]@,
        decreases v@.len() - i,
    {
        let d = v[i].clone();
        r.push(d);
        i += 1;
    }
    proof {
        assert forall|j: int| 0 <= j < v@.len() implies r.deep_view()[j] == v.deep_view()[j] by {
            assert(r.deep_view()[j] == r@[j]@);
            assert(v.deep_view()[j] == v@[j]@);
        }
        assert(r.deep_view() =~= v.deep_view());
    }
    r
}

/// An exact copy of a vector of arities.
fn copy_u8s(v: &Vec<u8>) -> (r: Vec<u8>)
    ensures
        r@ == v@,
{
    let mut r: Vec<u8> = Vec::new();
    let mut i: usize = 0;
    while i < v.len()
        invariant
            i <= v@.len(),
            r@ == v@.subrange(0, i as int),
        decreases v@.len() - i,
    {
        r.push(v[i]);
        i += 1;
        proof {
            assert(r@ =~= v@.subrange(0, i as int));
        }
    }
    proof {
        assert(r@ =~= v@);
    }
    r
}

/// An exact copy of a vector of slot indices.
fn copy_u16s(v: &Vec<u16>) -> (r: Vec<u16>)
    ensures
        r@ == v@,
{
    let mut r: Vec<u16> = Vec::new();
    let mut i: usize = 0;
    while i < v.len()
        invariant
            i <= v@.len(),
            r@ == v@.subrange(0, i as int),
        decreases v@.len() - i,
    {
        r.push(v[i]);
        i += 1;
        proof {
            assert(r@ =~= v@.subrange(0, i as int));
        }
    }
    proof {
        assert(r@ =~= v@);
    }
    r
}

/// A structural copy of the chunk table.
fn dup_chunks(v: &Vec<Chunk>) -> (r: Vec<Chunk>)
    ensures
        r.deep_view() == v.deep_view(),
{
    let mut r: Vec<Chunk> = Vec::new();
    let mut i: usize = 0;
    while i < v.len()
        invariant
            i <= v@.len(),
            r@.len() == i,
            forall|j: int| 0 <= j < i ==> (#[trigger] r@[j])@ == v@[j]@,
        decreases v@.len() - i,
    {
        let d = Chunk {
            instructions: crate::value::copy_opcodes(&v[i].instructions),
            reference: copy_u16s(&v[i].reference),
        };
        r.push(d);
        i += 1;
    }
    proof {
        assert forall|j: int| 0 <= j < v@.len() implies r.deep_view()[j] == v.deep_view()[j] by {
            assert(r.deep_view()[j] == r@[j]@);
            assert(v.deep_view()[j] == v@[j]@);
        }
        assert(r.deep_view() =~= v.deep_view());
    }
    r
}

impl Bytecode {
    /// A structural copy: the duplicate denotes the same compiled unit.
    pub fn duplicate(&self) -> (r: Bytecode)
        ensures
            r@ == self@,
    {
        Bytecode {
            instructions: crate::value::copy_opcodes(&self.instructions),
            constants: dup_literals(&self.constants),
            symbols: dup_strings(&self.symbols),
            constructors: copy_u8s(&self.constructors),
            chunks: dup_chunks(&self.chunks),
        }
    }

    /// An empty container, the starting point of one compilation.
    pub fn new() -> (r: Bytecode)
        ensures
            r@.instructions == Seq::<OpCode>::empty(),
            r@.constants == Seq::<LitV>::empty(),
            r@.symbols == Seq::<Seq<char>>::empty(),
            r@.constructors == Seq::<u8>::empty(),
            r@.chunks == Seq::<ChunkV>::empty(),
    {
        Bytecode {
            instructions: Vec::new(),
            constants: Vec::new(),
            symbols: Vec::new(),
            constructors: Vec::new(),
            chunks: Vec::new(),
        }
    }
}

} // verus!
