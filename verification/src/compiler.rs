//! The tree-to-instruction-stream lowering pass.  It resolves variable
//! references to integer slot indices, tracks the purity boundary,
//! deduplicates constants, and assigns closure templates.
//!
//! The symbol table is threaded functionally: each compile step receives a
//! table and returns a possibly extended one.  Position in the table is the
//! authoritative slot index, and a step never renames an existing position,
//! so a symbol's slot is stable for the whole compilation
//! ([`lemma_slot_stability`]).
//!
//! [`compile_expr_spec`] and [`compile_spec`] are the compiler's
//! functional model: lowering is proved to match them exactly, the same
//! streams, tables and container on success and the same error on
//! failure.

use vstd::prelude::*;

use crate::ast::{Expr, LitV, Literal};
use crate::bytecode::{Bytecode, Chunk, ChunkV, OpCode};
use crate::errors::OrionError;

verus! {

/// The threaded symbol table: each entry is a declared name with its
/// purity flag (true = impure).  Position is the slot index used at run
/// time.
pub type SymbolTable = Vec<(String, bool)>;

/// The mathematical image of a symbol table (or of the builtin table,
/// which has the same shape).
pub type SymSeq = Seq<(Seq<char>, bool)>;

/// Whether some entry of `t` is named `name`, at either purity.
pub open spec fn has_name(t: SymSeq, name: Seq<char>) -> bool {
    exists|i: int| 0 <= i < t.len() && (#[trigger] t[i]).0 == name
}

/// Whether `t` holds exactly the entry `(name, impure)`.
pub open spec fn has_entry(t: SymSeq, name: Seq<char>, impure: bool) -> bool {
    exists|i: int| 0 <= i < t.len() && #[trigger] t[i] == (name, impure)
}

/// The first position of `t` whose entry is named `name`: the slot a
/// resolution of `name` yields.  Meaningful only when `has_name(t, name)`.
pub open spec fn slot_of(t: SymSeq, name: Seq<char>) -> int
    decreases t.len(),
{
    if t.len() == 0 {
        0
    } else if t[0].0 == name {
        0
    } else {
        1 + slot_of(t.drop_first(), name)
    }
}

/// `slot_of` is the first matching position: it is in range, it is named
/// `name`, and nothing before it is.
pub proof fn lemma_slot_of(t: SymSeq, name: Seq<char>)
    requires
        has_name(t, name),
    ensures
        0 <= slot_of(t, name) < t.len(),
        t[slot_of(t, name)].0 == name,
        forall|j: int| 0 <= j < slot_of(t, name) ==> (#[trigger] t[j]).0 != name,
    decreases t.len(),
{
    if t[0].0 == name {
    } else {
        let i = choose|i: int| 0 <= i < t.len() && (#[trigger] t[i]).0 == name;
        assert(t.drop_first()[i - 1] == t[i]);
        lemma_slot_of(t.drop_first(), name);
        let s = slot_of(t.drop_first(), name);
        assert(t[1 + s] == t.drop_first()[s]);
        assert forall|j: int| 0 <= j < slot_of(t, name) implies (#[trigger] t[j]).0 != name by {
            if j > 0 {
                assert(t.drop_first()[j - 1] == t[j]);
            }
        }
    }
}

/// Slot stability: extending a table with further declarations (which only
/// append entries, never rename a position) never changes the slot an
/// already declared name resolves to.
pub proof fn lemma_slot_stability(t1: SymSeq, t2: SymSeq, name: Seq<char>)
    requires
        has_name(t1, name),
        t1.len() <= t2.len(),
        forall|i: int| 0 <= i < t1.len() ==> (#[trigger] t1[i]).0 == t2[i].0,
    ensures
        has_name(t2, name),
        slot_of(t2, name) == slot_of(t1, name),
{
    lemma_slot_of(t1, name);
    let s1 = slot_of(t1, name);
    assert(t2[s1].0 == name);
    assert(has_name(t2, name));
    lemma_slot_of(t2, name);
    let s2 = slot_of(t2, name);
    if s2 < s1 {
        assert(t1[s2].0 == t2[s2].0);
    }
}

/// The constant pool after registering literal `l`: unchanged when an
/// equal literal is already interned, extended by `l` otherwise.
pub open spec fn intern_pool(pool: Seq<LitV>, l: LitV) -> Seq<LitV> {
    if pool.contains(l) {
        pool
    } else {
        pool.push(l)
    }
}

/// The constant id that registering `l` yields: the first position of an
/// equal literal in the interned pool.
pub open spec fn intern_id(pool: Seq<LitV>, l: LitV) -> int {
    intern_pool(pool, l).index_of_first(l).unwrap()
}

/// Constant interning: registering the same literal twice yields one pool
/// entry and twice the same id, and a literal not yet interned grows the
/// pool by exactly one entry.
pub proof fn lemma_constant_interning(pool: Seq<LitV>, l: LitV)
    ensures
        intern_pool(intern_pool(pool, l), l) == intern_pool(pool, l),
        intern_id(intern_pool(pool, l), l) == intern_id(pool, l),
        pool.contains(l) ==> intern_pool(pool, l) == pool,
        !pool.contains(l) ==> intern_pool(pool, l) == pool.push(l),
        0 <= intern_id(pool, l) < intern_pool(pool, l).len(),
        intern_pool(pool, l)[intern_id(pool, l)] == l,
{
    assert(intern_pool(pool, l).contains(l)) by {
        if !pool.contains(l) {
            assert(pool.push(l)[pool.len() as int] == l);
        }
    }
    intern_pool(pool, l).index_of_first_ensures(l);
}

/// The table after declaring `name` at purity `impure`: an entry of that
/// name (at either purity) is reused together with its slot, otherwise a
/// new entry is appended and the new slot is the old length.
pub open spec fn declare_spec(t: SymSeq, name: Seq<char>, impure: bool) -> (int, SymSeq) {
    if has_name(t, name) {
        (slot_of(t, name), t)
    } else {
        (t.len() as int, t.push((name, impure)))
    }
}

/// Whether some entry of `t` is named `name`, at purity `impure` exactly.
/// Scans the concrete table.
fn contains_entry(table: &Vec<(String, bool)>, name: &String, impure: bool) -> (r: bool)
    ensures
        r == has_entry(table.deep_view(), name@, impure),
{
    let ghost t = table.deep_view();
    let mut i: usize = 0;
    let mut found: bool = false;
    while i < table.len() && !found
        invariant
            i <= t.len(),
            t == table.deep_view(),
            t.len() == table@.len(),
            forall|j: int| 0 <= j < i ==> #[trigger] t[j] != (name@, impure),
            found ==> i < t.len() && t[i as int] == (name@, impure),
        decreases t.len() - i + (if found { 0int } else { 1int }),
    {
        proof {
            assert(t[i as int] == (table@[i as int].0@, table@[i as int].1));
        }
        if table[i].1 == impure && table[i].0 == *name {
            found = true;
        } else {
            i += 1;
        }
    }
    found
}

/// The first position of `table` holding an entry named `name`, at either
/// purity.
fn find_name(table: &Vec<(String, bool)>, name: &String) -> (r: Option<usize>)
    ensures
        match r {
            Some(i) => has_name(table.deep_view(), name@) && i as int == slot_of(
                table.deep_view(),
                name@,
            ),
            None => !has_name(table.deep_view(), name@),
        },
{
    let ghost t = table.deep_view();
    let mut i: usize = 0;
    let mut found: bool = false;
    while i < table.len() && !found
        invariant
            i <= t.len(),
            t == table.deep_view(),
            t.len() == table@.len(),
            forall|j: int| 0 <= j < i ==> (#[trigger] t[j]).0 != name@,
            found ==> i < t.len() && t[i as int].0 == name@,
        decreases t.len() - i + (if found { 0int } else { 1int }),
    {
        proof {
            assert(t[i as int] == (table@[i as int].0@, table@[i as int].1));
        }
        if table[i].0 == *name {
            found = true;
        } else {
            i += 1;
        }
    }
    if found {
        proof {
            lemma_slot_of(t, name@);
            let s = slot_of(t, name@);
            assert(s == i as int) by {
                if s < i as int {
                    assert(t[s].0 != name@);
                }
            }
        }
        Some(i)
    } else {
        None
    }
}

/// The first position of `name` in a vector of names.
fn find_string(names: &Vec<String>, name: &String) -> (r: Option<usize>)
    ensures
        match r {
            Some(i) => names.deep_view().contains(name@) && Some(i as int)
                == names.deep_view().index_of_first(name@),
            None => !names.deep_view().contains(name@),
        },
{
    let ghost t = names.deep_view();
    let mut i: usize = 0;
    let mut found: bool = false;
    while i < names.len() && !found
        invariant
            i <= t.len(),
            t == names.deep_view(),
            t.len() == names@.len(),
            forall|j: int| 0 <= j < i ==> #[trigger] t[j] != name@,
            found ==> i < t.len() && t[i as int] == name@,
        decreases t.len() - i + (if found { 0int } else { 1int }),
    {
        proof {
            assert(t[i as int] == names@[i as int]@);
        }
        if names[i] == *name {
            found = true;
        } else {
            i += 1;
        }
    }
    if found {
        proof {
            assert(t.contains(name@));
            t.index_of_first_ensures(name@);
        }
        Some(i)
    } else {
        proof {
            assert(!t.contains(name@));
        }
        None
    }
}

/// Parameter declaration for a lambda: fold `declare_spec` (always pure)
/// over the formal parameter names, collecting the slot of each.  The
/// scope a lambda body sees is rebuilt by substituting each parameter's
/// name in at its numeric slot, so parameter visibility is tied to slot
/// reuse, not lexical nesting — a design risk preserved as is.
pub open spec fn declare_params(t: SymSeq, params: Seq<Seq<char>>) -> (Seq<int>, SymSeq)
    decreases params.len(),
{
    if params.len() == 0 {
        (Seq::empty(), t)
    } else {
        let first = declare_spec(t, params[0], false);
        let rest = declare_params(first.1, params.drop_first());
        (seq![first.0] + rest.0, rest.1)
    }
}

/// A prefix of a prefix is a prefix.
pub proof fn lemma_prefix_trans<A>(x: Seq<A>, y: Seq<A>, z: Seq<A>)
    requires
        x.is_prefix_of(y),
        y.is_prefix_of(z),
    ensures
        x.is_prefix_of(z),
{
    assert forall|i: int| 0 <= i < x.len() implies x[i] == z.subrange(0, x.len() as int)[i] by {
        assert(x[i] == y.subrange(0, x.len() as int)[i]);
        assert(y[i] == z.subrange(0, y.len() as int)[i]);
    }
    assert(x =~= z.subrange(0, x.len() as int));
}

/// Every sequence is a prefix of itself.
pub proof fn lemma_prefix_refl<A>(x: Seq<A>)
    ensures
        x.is_prefix_of(x),
{
    assert(x =~= x.subrange(0, x.len() as int));
}

/// Appending elements preserves the prefix.
pub proof fn lemma_add_prefix<A>(x: Seq<A>, y: Seq<A>)
    ensures
        x.is_prefix_of(x + y),
{
    assert(x =~= (x + y).subrange(0, x.len() as int));
}

/// A pushed sequence keeps its old part.
pub proof fn lemma_push_prefix<A>(x: Seq<A>, v: A)
    ensures
        x.is_prefix_of(x.push(v)),
{
    assert(x =~= x.push(v).subrange(0, x.len() as int));
}

/// A prefix keeps every element the longer sequence holds early on.
pub proof fn lemma_contains_prefix<A>(x: Seq<A>, y: Seq<A>, v: A)
    requires
        x.is_prefix_of(y),
        x.contains(v),
    ensures
        y.contains(v),
{
    let i = choose|i: int| 0 <= i < x.len() && x[i] == v;
    assert(x[i] == y.subrange(0, x.len() as int)[i]);
    assert(y[i] == v);
}

/// What one compile step may do to the compiler's tables: append-only
/// growth of every id-indexed table, and no touch of the finished parts.
pub open spec fn tables_extend(pre: Compiler, post: Compiler) -> bool {
    &&& pre.output@.constants.is_prefix_of(post.output@.constants)
    &&& pre.output@.chunks.is_prefix_of(post.output@.chunks)
    &&& pre.output@.constructors.is_prefix_of(post.output@.constructors)
    &&& pre.constructors.deep_view().is_prefix_of(post.constructors.deep_view())
    &&& pre.load_history.deep_view().is_prefix_of(post.load_history.deep_view())
    &&& post.output@.instructions == pre.output@.instructions
    &&& post.output@.symbols == pre.output@.symbols
    &&& post.builtins == pre.builtins
    &&& post.input == pre.input
    &&& post.modules@.len() <= pre.modules@.len()
}

/// What one compile step may do to the threaded symbol table: extend it,
/// never rename an existing position.  This is what keeps slots stable
/// (see [`lemma_slot_stability`]).
pub open spec fn syms_extend(t1: SymSeq, t2: SymSeq) -> bool {
    &&& t1.len() <= t2.len()
    &&& forall|i: int| 0 <= i < t1.len() ==> (#[trigger] t2[i]).0 == t1[i].0
}

/// The frame every successful compile step preserves.
pub open spec fn step_frame(pre: Compiler, t: SymSeq, post: Compiler, syms: SymSeq) -> bool {
    &&& tables_extend(pre, post)
    &&& syms_extend(t, syms)
    &&& syms.len() <= 65535
    &&& post.wf()
}

/// Chaining two compile steps yields a compile step.
pub proof fn lemma_step_trans(
    a: Compiler,
    t0: SymSeq,
    b: Compiler,
    t1: SymSeq,
    c: Compiler,
    t2: SymSeq,
)
    requires
        step_frame(a, t0, b, t1),
        step_frame(b, t1, c, t2),
    ensures
        step_frame(a, t0, c, t2),
{
    lemma_prefix_trans(a.output@.constants, b.output@.constants, c.output@.constants);
    lemma_prefix_trans(a.output@.chunks, b.output@.chunks, c.output@.chunks);
    lemma_prefix_trans(a.output@.constructors, b.output@.constructors, c.output@.constructors);
    lemma_prefix_trans(
        a.constructors.deep_view(),
        b.constructors.deep_view(),
        c.constructors.deep_view(),
    );
    lemma_prefix_trans(
        a.load_history.deep_view(),
        b.load_history.deep_view(),
        c.load_history.deep_view(),
    );
}

/// A compiler extends itself.
pub proof fn lemma_tables_refl(a: Compiler)
    ensures
        tables_extend(a, a),
{
    lemma_prefix_refl(a.output@.constants);
    lemma_prefix_refl(a.output@.chunks);
    lemma_prefix_refl(a.output@.constructors);
    lemma_prefix_refl(a.constructors.deep_view());
    lemma_prefix_refl(a.load_history.deep_view());
}

/// A well-formed compiler is a compile step from itself to itself.
pub proof fn lemma_step_refl(a: Compiler, t: SymSeq)
    requires
        a.wf(),
        t.len() <= 65535,
    ensures
        step_frame(a, t, a, t),
{
    lemma_tables_refl(a);
}

/// The parameter fold assigns each parameter a slot that carries its own
/// name, extends the table name-stably, and grows it by at most one entry
/// per parameter.
pub proof fn lemma_declare_params_props(t: SymSeq, ps: Seq<Seq<char>>)
    ensures
        ({
            let a = declare_params(t, ps);
            &&& a.0.len() == ps.len()
            &&& syms_extend(t, a.1)
            &&& a.1.len() <= t.len() + ps.len()
            &&& forall|k: int| 0 <= k < ps.len() ==> 0 <= #[trigger] a.0[k] < a.1.len()
            &&& forall|k: int| 0 <= k < ps.len() ==> a.1[a.0[k]].0 == #[trigger] ps[k]
        }),
    decreases ps.len(),
{
    let a = declare_params(t, ps);
    if ps.len() == 0 {
    } else {
        let f = declare_spec(t, ps[0], false);
        if has_name(t, ps[0]) {
            lemma_slot_of(t, ps[0]);
        }
        lemma_declare_params_props(f.1, ps.drop_first());
        let rest = declare_params(f.1, ps.drop_first());
        assert(a.0 == seq![f.0] + rest.0);
        assert(a.1 == rest.1);
        assert forall|k: int|
            0 <= k < ps.len() implies 0 <= #[trigger] a.0[k] < a.1.len() && a.1[#[trigger] a.0[k]].0
            == ps[k] by {
            if k == 0 {
                assert(a.0[0] == f.0);
                assert(f.1[f.0].0 == ps[0]);
                assert(a.1[f.0].0 == f.1[f.0].0);
            } else {
                assert(a.0[k] == rest.0[k - 1]);
                assert(ps.drop_first()[k - 1] == ps[k]);
            }
        }
    }
}

/// Append a copy of every opcode of `src` to `dst`.
fn extend_ops(dst: &mut Vec<OpCode>, src: &Vec<OpCode>)
    ensures
        final(dst)@ == old(dst)@ + src@,
{
    let mut i: usize = 0;
    while i < src.len()
        invariant
            i <= src@.len(),
            dst@ == old(dst)@ + src@.subrange(0, i as int),
        decreases src@.len() - i,
    {
        dst.push(src[i]);
        i += 1;
        proof {
            assert(dst@ =~= old(dst)@ + src@.subrange(0, i as int));
        }
    }
    proof {
        assert(dst@ =~= old(dst)@ + src@);
    }
}

/// The first position of the named module in the module table, if it is
/// there.
fn find_module(modules: &Vec<(String, Vec<Expr>)>, name: &String) -> (r: Option<usize>)
    ensures
        match r {
            Some(i) => mod_has(modules@, name@) && i < modules@.len() && modules@[i as int].0@
                == name@ && (forall|j: int|
                0 <= j < i ==> (#[trigger] modules@[j]).0@ != name@),
            None => !mod_has(modules@, name@),
        },
{
    let mut i: usize = 0;
    while i < modules.len()
        invariant
            i <= modules@.len(),
            forall|j: int| 0 <= j < i ==> (#[trigger] modules@[j]).0@ != name@,
        decreases modules@.len() - i,
    {
        if modules[i].0 == *name {
            return Some(i);
        }
        i += 1;
    }
    None
}

/// The first parameter position whose slot is `p`, if any.
fn find_slot(refs: &Vec<u16>, p: usize) -> (r: Option<usize>)
    ensures
        match r {
            Some(k) => k < refs@.len() && refs@[k as int] as int == p as int && (forall|j: int|
                0 <= j < k ==> (#[trigger] refs@[j]) as int != p as int),
            None => forall|j: int|
                0 <= j < refs@.len() ==> (#[trigger] refs@[j]) as int != p as int,
        },
{
    let mut i: usize = 0;
    while i < refs.len()
        invariant
            i <= refs@.len(),
            forall|j: int| 0 <= j < i ==> (#[trigger] refs@[j]) as int != p as int,
        decreases refs@.len() - i,
    {
        if refs[i] as usize == p {
            return Some(i);
        }
        i += 1;
    }
    None
}

/// Everything of the compiler but the constant pool is untouched.
pub open spec fn only_constants_changed(pre: Compiler, post: Compiler) -> bool {
    &&& post.output@.instructions == pre.output@.instructions
    &&& post.output@.symbols == pre.output@.symbols
    &&& post.output@.chunks == pre.output@.chunks
    &&& post.output@.constructors == pre.output@.constructors
    &&& post.constructors == pre.constructors
    &&& post.builtins == pre.builtins
    &&& post.input == pre.input
    &&& post.load_history == pre.load_history
    &&& post.modules == pre.modules
}

/// Everything of the compiler but the two constructor tables is untouched.
pub open spec fn only_constructors_changed(pre: Compiler, post: Compiler) -> bool {
    &&& post.output@.instructions == pre.output@.instructions
    &&& post.output@.symbols == pre.output@.symbols
    &&& post.output@.chunks == pre.output@.chunks
    &&& post.output@.constants == pre.output@.constants
    &&& post.builtins == pre.builtins
    &&& post.input == pre.input
    &&& post.load_history == pre.load_history
    &&& post.modules == pre.modules
}

/// Lowering a literal: intern it and load it by id.
pub open spec fn post_literal(
    pre: Compiler,
    lit: Literal,
    t: SymSeq,
    post: Compiler,
    r: Result<(Vec<OpCode>, SymbolTable), OrionError>,
) -> bool {
    let pool = pre.output@.constants;
    &&& (r matches Ok(ok) ==> {
        &&& intern_pool(pool, lit@).len() <= 65535
        &&& post.output@.constants == intern_pool(pool, lit@)
        &&& only_constants_changed(pre, post)
        &&& ok.0@ == seq![OpCode::LoadConst(intern_id(pool, lit@) as u16)]
        &&& ok.1.deep_view() == t
    })
    &&& (r matches Err(e) ==> {
        &&& e == OrionError::TooManyConstants
        &&& intern_pool(pool, lit@).len() > 65535
    })
}

/// Resolving a variable reference: a name declared at the requested
/// purity, or declared pure and read from an impure context, loads from
/// its slot; an impure name read from a pure context is a purity
/// violation; anything else is unbound.  Resolution never changes the
/// compiler or the table.
pub open spec fn post_var(
    pre: Compiler,
    name: Seq<char>,
    t: SymSeq,
    impure: bool,
    post: Compiler,
    r: Result<(Vec<OpCode>, SymbolTable), OrionError>,
) -> bool {
    &&& post == pre
    &&& if has_entry(t, name, impure) || (impure && has_entry(t, name, false)) {
        &&& r is Ok
        &&& (r matches Ok(ok) ==> ok.0@ == seq![OpCode::LoadSym(slot_of(t, name) as u16)]
            && ok.1.deep_view() == t)
    } else if !impure && has_entry(t, name, true) {
        r matches Err(e) && e matches OrionError::ImpureSymbol(n) && n@ == name
    } else {
        r matches Err(e) && e matches OrionError::UnboundVariable(n) && n@ == name
    }
}

/// Loading modules: on success every requested module name has been
/// compiled in, now or earlier (its name is in the load history).
pub open spec fn post_load(
    pre: Compiler,
    files: Seq<Seq<char>>,
    t: SymSeq,
    post: Compiler,
    r: Result<(Vec<OpCode>, SymbolTable), OrionError>,
) -> bool {
    r matches Ok(ok) ==> forall|i: int|
        0 <= i < files.len() ==> post.load_history.deep_view().contains(#[trigger] files[i])
}

/// Lowering a definition: the name is declared at the definition's
/// purity, the initializer's instructions come first, and a single store
/// to the declared slot ends the stream.
pub open spec fn post_def(
    pre: Compiler,
    name: Seq<char>,
    purity: bool,
    t: SymSeq,
    post: Compiler,
    r: Result<(Vec<OpCode>, SymbolTable), OrionError>,
) -> bool {
    let d = declare_spec(t, name, purity);
    &&& (r matches Ok(ok) ==> {
        &&& ok.0@.len() >= 1
        &&& ok.0@.last() == OpCode::Def(d.0 as u16)
        &&& syms_extend(d.1, ok.1.deep_view())
    })
    &&& (!has_name(t, name) && t.len() >= 65535 ==> r == Err::<(Vec<OpCode>, SymbolTable),
        OrionError,
    >(OrionError::TooManySymbols) && post == pre)
}

/// Lowering a call: callee first, then the arguments in source order, and
/// a single call instruction carrying the argument count ends the stream.
pub open spec fn post_call(
    pre: Compiler,
    argc: int,
    t: SymSeq,
    post: Compiler,
    r: Result<(Vec<OpCode>, SymbolTable), OrionError>,
) -> bool {
    r matches Ok(ok) ==> {
        &&& argc <= 65535
        &&& ok.0@.len() >= 1
        &&& ok.0@.last() == OpCode::Call(argc as u16)
    }
}

/// Lowering a lambda: a fresh chunk is pushed last, its parameter slots
/// are those `declare_params` assigns, and the enclosing stream gets one
/// load-lambda instruction referring to it.
pub open spec fn post_lambda(
    pre: Compiler,
    params: Seq<Seq<char>>,
    t: SymSeq,
    post: Compiler,
    r: Result<(Vec<OpCode>, SymbolTable), OrionError>,
) -> bool {
    r matches Ok(ok) ==> {
        let n = post.output@.chunks.len();
        let d = declare_params(t, params);
        &&& n > pre.output@.chunks.len()
        &&& n <= 65535
        &&& ok.0@ == seq![OpCode::Lambda((n - 1) as u16)]
        &&& post.output@.chunks.last().reference.len() == params.len()
        &&& forall|i: int|
            0 <= i < params.len() ==> #[trigger] post.output@.chunks.last().reference[i] as int
                == d.0[i]
    }
}

/// Lowering a builtin invocation: an unknown name is rejected; an impure
/// builtin in a pure context is a purity violation, whatever its
/// arguments; otherwise the arguments come first and a single
/// builtin-call instruction carrying the table index and argument count
/// ends the stream.  With no arguments the invocation always succeeds.
pub open spec fn post_builtin(
    pre: Compiler,
    name: Seq<char>,
    argc: int,
    t: SymSeq,
    impure: bool,
    post: Compiler,
    r: Result<(Vec<OpCode>, SymbolTable), OrionError>,
) -> bool {
    let bs = pre.builtins.deep_view();
    if !has_name(bs, name) {
        r matches Err(e) && e matches OrionError::UnknownBuiltin(n) && n@ == name && post == pre
    } else {
        let bi = slot_of(bs, name);
        if !impure && bs[bi].1 {
            r matches Err(e) && e matches OrionError::ImpureBuiltin(n) && n@ == name && post == pre
        } else {
            &&& (r matches Ok(ok) ==> {
                &&& argc <= 255
                &&& ok.0@.len() >= 1
                &&& ok.0@.last() == OpCode::Builtin(bi as u8, argc as u8)
            })
            &&& (argc == 0 ==> r is Ok)
            &&& (r matches Ok(ok) ==> (argc == 0 ==> ok.0@ == seq![
                OpCode::Builtin(bi as u8, 0),
            ] && ok.1.deep_view() == t && post == pre))
        }
    }
}

/// Lowering an enum declaration: no instructions; on success every listed
/// constructor is appended, names and arities in registration order.
pub open spec fn post_enum(
    pre: Compiler,
    ctors: Seq<(Seq<char>, u8)>,
    t: SymSeq,
    post: Compiler,
    r: Result<(Vec<OpCode>, SymbolTable), OrionError>,
) -> bool {
    &&& (r matches Ok(ok) ==> {
        &&& ok.0@ == Seq::<OpCode>::empty()
        &&& ok.1.deep_view() == t
        &&& post.constructors.deep_view() == pre.constructors.deep_view() + ctors.map_values(
            |c: (Seq<char>, u8)| c.0,
        )
        &&& post.output@.constructors == pre.output@.constructors + ctors.map_values(
            |c: (Seq<char>, u8)| c.1,
        )
        &&& only_constructors_changed(pre, post)
    })
    &&& (r matches Err(e) ==> e is DuplicateConstructor || e is TooManyConstructors)
}

/// Lowering a constructor application: the constructor must be
/// registered, the value count must equal its declared arity, and the
/// stream opens with a construct instruction carrying the constructor
/// index and the flattened length of the operand instructions that
/// follow.
pub open spec fn post_constr(
    pre: Compiler,
    name: Seq<char>,
    given: int,
    t: SymSeq,
    post: Compiler,
    r: Result<(Vec<OpCode>, SymbolTable), OrionError>,
) -> bool {
    let cs = pre.constructors.deep_view();
    if !cs.contains(name) {
        r matches Err(e) && e matches OrionError::UnknownConstructor(n) && n@ == name && post == pre
    } else {
        let idx = cs.index_of_first(name).unwrap();
        let amount = pre.output@.constructors[idx];
        if amount as int != given {
            &&& post == pre
            &&& r is Err
            &&& (r matches Err(e) ==> e matches OrionError::ConstructorArity {
                name: n,
                expected,
                given: g,
            } && n@ == name && expected == amount && g as int == given)
        } else {
            r matches Ok(ok) ==> {
                &&& ok.0@.len() >= 1
                &&& ok.0@.len() - 1 <= 65535
                &&& ok.0@[0] == OpCode::Constructor(idx as u16, (ok.0@.len() - 1) as u16)
            }
        }
    }
}

/// Lowering a quote: the stream opens with a quote instruction carrying
/// the length of the compiled block that follows, unexecuted.
pub open spec fn post_quote(
    pre: Compiler,
    t: SymSeq,
    post: Compiler,
    r: Result<(Vec<OpCode>, SymbolTable), OrionError>,
) -> bool {
    r matches Ok(ok) ==> {
        &&& ok.0@.len() >= 1
        &&& ok.0@.len() - 1 <= 65535
        &&& ok.0@[0] == OpCode::Quote((ok.0@.len() - 1) as u16)
    }
}

/// Lowering a tuple: the stream opens with a make-tuple instruction
/// carrying the flattened length of the element instructions that follow
/// and the element count.
pub open spec fn post_tuple(
    pre: Compiler,
    count: int,
    t: SymSeq,
    post: Compiler,
    r: Result<(Vec<OpCode>, SymbolTable), OrionError>,
) -> bool {
    r matches Ok(ok) ==> {
        &&& count <= 65535
        &&& ok.0@.len() >= 1
        &&& ok.0@.len() - 1 <= 65535
        &&& ok.0@[0] == OpCode::Tuple((ok.0@.len() - 1) as u16, count as u16)
    }
}

/// What compiling one expression does, case by case.  Every successful
/// step extends the tables append-only and the symbol table
/// name-stably.
pub open spec fn compile_post(
    pre: Compiler,
    expr: Expr,
    t: SymSeq,
    impure: bool,
    post: Compiler,
    r: Result<(Vec<OpCode>, SymbolTable), OrionError>,
) -> bool {
    &&& (r matches Ok(ok) ==> step_frame(pre, t, post, ok.1.deep_view()))
    &&& match expr {
        Expr::Literal(lit) => post_literal(pre, lit, t, post, r),
        Expr::Var(name) => post_var(pre, name@, t, impure, post, r),
        Expr::Load(files) => post_load(pre, files.deep_view(), t, post, r),
        Expr::Def(name, e, purity) => post_def(pre, name@, purity, t, post, r),
        Expr::Call(f, args) => post_call(pre, args@.len() as int, t, post, r),
        Expr::Lambda(params, body) => post_lambda(pre, params.deep_view(), t, post, r),
        Expr::Builtin(name, args) => post_builtin(
            pre,
            name@,
            args@.len() as int,
            t,
            impure,
            post,
            r,
        ),
        Expr::Enum(name, ctors) => post_enum(pre, ctors.deep_view(), t, post, r),
        Expr::Constr(name, contained) => post_constr(
            pre,
            name@,
            contained@.len() as int,
            t,
            post,
            r,
        ),
        Expr::Quote(e) => post_quote(pre, t, post, r),
        Expr::Tuple(vals) => post_tuple(pre, vals@.len() as int, t, post, r),
    }
}

/// The purity gate: invoking a builtin registered as impure from a pure
/// context fails compilation with a purity violation and leaves the
/// compiler untouched, while the same invocation (here with no
/// arguments, so that nothing else can fail) succeeds in an impure
/// context such as the top level.
pub proof fn lemma_purity_gate(
    pre: Compiler,
    name: String,
    args: Vec<Expr>,
    t: SymSeq,
    post_pure: Compiler,
    r_pure: Result<(Vec<OpCode>, SymbolTable), OrionError>,
    post_top: Compiler,
    r_top: Result<(Vec<OpCode>, SymbolTable), OrionError>,
)
    requires
        has_name(pre.builtins.deep_view(), name@),
        pre.builtins.deep_view()[slot_of(pre.builtins.deep_view(), name@)].1,
        args@.len() == 0,
        compile_post(pre, Expr::Builtin(name, args), t, false, post_pure, r_pure),
        compile_post(pre, Expr::Builtin(name, args), t, true, post_top, r_top),
    ensures
        r_pure matches Err(e) && e matches OrionError::ImpureBuiltin(n) && n@ == name@,
        post_pure == pre,
        r_top is Ok,
        post_top == pre,
{
}

/// The purity gate at whole-program level: a program that is one
/// invocation of a registered builtin with no arguments compiles at the
/// top level whatever the builtin's purity, because the top level is
/// impure — to exactly one builtin-call instruction and no symbols.
pub proof fn lemma_purity_gate_top_level(st: CompState, name: String, args: Vec<Expr>)
    requires
        has_name(st.builtins, name@),
        st.builtins.len() <= 256,
        args@.len() == 0,
    ensures
        ({
            let program = seq![Expr::Builtin(name, args)];
            let bi = slot_of(st.builtins, name@);
            compile_spec(st, program) matches Ok(out) && out.0 == seq![
                OpCode::Builtin(bi as u8, 0),
            ] && out.1 == Seq::<(Seq<char>, bool)>::empty()
        }),
{
    let program = seq![Expr::Builtin(name, args)];
    let e = Expr::Builtin(name, args);
    let t0 = Seq::<(Seq<char>, bool)>::empty();
    let bi = slot_of(st.builtins, name@);
    lemma_slot_of(st.builtins, name@);
    assert(program[0] == e);
    assert(compile_list_spec(st, args@, t0, true) == Ok::<
        (Seq<OpCode>, SymSeq, CompState),
        OrionError,
    >((Seq::<OpCode>::empty(), t0, st)));
    assert(Seq::<OpCode>::empty() + seq![OpCode::Builtin(bi as u8, 0)] =~= seq![
        OpCode::Builtin(bi as u8, 0),
    ]);
    let head = compile_expr_spec(st, e, t0, true);
    assert(head == Ok::<(Seq<OpCode>, SymSeq, CompState), OrionError>(
        (seq![OpCode::Builtin(bi as u8, 0)], t0, st),
    ));
    assert(program.drop_first() =~= Seq::<Expr>::empty());
    assert(compile_list_spec(st, program.drop_first(), t0, true) == Ok::<
        (Seq<OpCode>, SymSeq, CompState),
        OrionError,
    >((Seq::<OpCode>::empty(), t0, st)));
    assert(seq![OpCode::Builtin(bi as u8, 0)] + Seq::<OpCode>::empty() =~= seq![
        OpCode::Builtin(bi as u8, 0),
    ]);
}

/// The constructor arity gate: applying a registered constructor to a
/// number of values different from its declared arity fails compilation
/// with an arity mismatch naming the constructor and both counts, and
/// leaves the compiler untouched.
pub proof fn lemma_constructor_arity(
    pre: Compiler,
    name: String,
    contained: Vec<Expr>,
    t: SymSeq,
    impure: bool,
    post: Compiler,
    r: Result<(Vec<OpCode>, SymbolTable), OrionError>,
)
    requires
        pre.constructors.deep_view().contains(name@),
        pre.output@.constructors[pre.constructors.deep_view().index_of_first(name@).unwrap()]
            as int != contained@.len(),
        compile_post(pre, Expr::Constr(name, contained), t, impure, post, r),
    ensures
        r matches Err(e) && e matches OrionError::ConstructorArity { name: n, expected, given }
            && n@ == name@ && expected == pre.output@.constructors[pre.constructors.deep_view()
            .index_of_first(name@).unwrap()] && given == contained@.len(),
        post == pre,
{
}


/// The compiler's table state as one mathematical value: everything a
/// compile step reads and extends (the finished instruction stream and
/// symbol list are written only once, by `compile` itself).
#[verifier::ext_equal]
pub struct CompState {
    pub constants: Seq<LitV>,
    pub chunks: Seq<ChunkV>,
    pub ctor_names: Seq<Seq<char>>,
    pub ctor_arities: Seq<u8>,
    pub history: Seq<Seq<char>>,
    pub modules: Seq<(String, Vec<Expr>)>,
    pub builtins: SymSeq,
}

/// The table state a compiler value holds.
pub open spec fn comp_view(c: Compiler) -> CompState {
    CompState {
        constants: c.output@.constants,
        chunks: c.output@.chunks,
        ctor_names: c.constructors.deep_view(),
        ctor_arities: c.output@.constructors,
        history: c.load_history.deep_view(),
        modules: c.modules@,
        builtins: c.builtins.deep_view(),
    }
}

/// Whether every parameter can still be declared: each fresh name needs
/// a free 16-bit slot.
pub open spec fn can_declare_all(t: SymSeq, ps: Seq<Seq<char>>) -> bool
    decreases ps.len(),
{
    if ps.len() == 0 {
        true
    } else {
        (has_name(t, ps[0]) || t.len() < 65535) && can_declare_all(
            declare_spec(t, ps[0], false).1,
            ps.drop_first(),
        )
    }
}

/// Whether some parameter was assigned slot `p`.
pub open spec fn slot_hit(slots: Seq<int>, p: int) -> bool {
    exists|k: int| 0 <= k < slots.len() && slots[k] == p
}

/// The first parameter position whose slot is `p`.
pub open spec fn first_hit(slots: Seq<int>, p: int) -> int
    decreases slots.len(),
{
    if slots.len() == 0 {
        0
    } else if slots[0] == p {
        0
    } else {
        1 + first_hit(slots.drop_first(), p)
    }
}

/// `first_hit` is the first matching position.
pub proof fn lemma_first_hit(slots: Seq<int>, p: int)
    requires
        slot_hit(slots, p),
    ensures
        0 <= first_hit(slots, p) < slots.len(),
        slots[first_hit(slots, p)] == p,
        forall|j: int| 0 <= j < first_hit(slots, p) ==> slots[j] != p,
    decreases slots.len(),
{
    if slots[0] == p {
    } else {
        let k = choose|k: int| 0 <= k < slots.len() && slots[k] == p;
        assert(slots.drop_first()[k - 1] == slots[k]);
        lemma_first_hit(slots.drop_first(), p);
        let f = first_hit(slots.drop_first(), p);
        assert(slots[1 + f] == slots.drop_first()[f]);
        assert forall|j: int| 0 <= j < first_hit(slots, p) implies slots[j] != p by {
            if j > 0 {
                assert(slots.drop_first()[j - 1] == slots[j]);
            }
        }
    }
}

/// The scope a lambda body sees: the table after declaring the
/// parameters, with each parameter's name substituted in (pure) at its
/// slot — the first parameter owning a slot wins.
pub open spec fn subst_params(t: SymSeq, params: Seq<Seq<char>>, slots: Seq<int>) -> SymSeq {
    Seq::new(
        t.len(),
        |p: int|
            if slot_hit(slots, p) {
                (params[first_hit(slots, p)], false)
            } else {
                t[p]
            },
    )
}

/// The names of a symbol table, in slot order.
pub open spec fn table_names(t: SymSeq) -> Seq<Seq<char>> {
    Seq::new(t.len(), |i: int| t[i].0)
}

/// Registering a run of constructors, mirroring `register_constructor`
/// left to right.
pub open spec fn ctors_spec(
    names: Seq<Seq<char>>,
    arities: Seq<u8>,
    ctors: Seq<(String, u8)>,
) -> Result<(Seq<Seq<char>>, Seq<u8>), OrionError>
    decreases ctors.len(),
{
    if ctors.len() == 0 {
        Ok((names, arities))
    } else if names.contains(ctors[0].0@) {
        Err(
            OrionError::DuplicateConstructor(
                ctors[0].0,
                names.index_of_first(ctors[0].0@).unwrap() as u16,
            ),
        )
    } else if names.len() >= 65535 {
        Err(OrionError::TooManyConstructors)
    } else {
        ctors_spec(names.push(ctors[0].0@), arities.push(ctors[0].1), ctors.drop_first())
    }
}

/// Whether the module table holds a module of this name.
pub open spec fn mod_has(modules: Seq<(String, Vec<Expr>)>, name: Seq<char>) -> bool {
    exists|k: int| 0 <= k < modules.len() && (#[trigger] modules[k]).0@ == name
}

/// The first module of this name.
pub open spec fn mod_first(modules: Seq<(String, Vec<Expr>)>, name: Seq<char>) -> int
    decreases modules.len(),
{
    if modules.len() == 0 {
        0
    } else if modules[0].0@ == name {
        0
    } else {
        1 + mod_first(modules.drop_first(), name)
    }
}

/// `mod_first` is the first matching module position.
pub proof fn lemma_mod_first(modules: Seq<(String, Vec<Expr>)>, name: Seq<char>)
    requires
        mod_has(modules, name),
    ensures
        0 <= mod_first(modules, name) < modules.len(),
        modules[mod_first(modules, name)].0@ == name,
        forall|j: int| 0 <= j < mod_first(modules, name) ==> (#[trigger] modules[j]).0@ != name,
    decreases modules.len(),
{
    if modules[0].0@ == name {
    } else {
        let k = choose|k: int| 0 <= k < modules.len() && (#[trigger] modules[k]).0@ == name;
        assert(modules.drop_first()[k - 1] == modules[k]);
        lemma_mod_first(modules.drop_first(), name);
        let f = mod_first(modules.drop_first(), name);
        assert(modules[1 + f] == modules.drop_first()[f]);
        assert forall|j: int| 0 <= j < mod_first(modules, name) implies (#[trigger] modules[j]).0@
            != name by {
            if j > 0 {
                assert(modules.drop_first()[j - 1] == modules[j]);
            }
        }
    }
}

/// The functional model of compiling one expression: the instruction
/// stream it emits, the symbol table it returns, and the table state it
/// leaves — or the error that aborts the compilation.  The guards that
/// compare module counts only make the recursion measure manifest:
/// compiling never grows the module table, so they always hold.
pub open spec fn compile_expr_spec(
    st: CompState,
    expr: Expr,
    t: SymSeq,
    impure: bool,
) -> Result<(Seq<OpCode>, SymSeq, CompState), OrionError>
    decreases st.modules.len(), expr, 2int, 0int,
{
    match expr {
        Expr::Literal(lit) => {
            if intern_pool(st.constants, lit@).len() > 65535 {
                Err(OrionError::TooManyConstants)
            } else {
                Ok(
                    (
                        seq![OpCode::LoadConst(intern_id(st.constants, lit@) as u16)],
                        t,
                        CompState { constants: intern_pool(st.constants, lit@), ..st },
                    ),
                )
            }
        },
        Expr::Var(name) => {
            if has_entry(t, name@, impure) || (impure && has_entry(t, name@, false)) {
                Ok((seq![OpCode::LoadSym(slot_of(t, name@) as u16)], t, st))
            } else if !impure && has_entry(t, name@, true) {
                Err(OrionError::ImpureSymbol(name))
            } else {
                Err(OrionError::UnboundVariable(name))
            }
        },
        Expr::Load(files) => load_files_spec(st, files@, t, expr),
        Expr::Def(name, e, purity) => {
            if !has_name(t, name@) && t.len() >= 65535 {
                Err(OrionError::TooManySymbols)
            } else {
                let d = declare_spec(t, name@, purity);
                match compile_expr_spec(st, *e, d.1, purity) {
                    Ok(out) => Ok((out.0.push(OpCode::Def(d.0 as u16)), out.1, out.2)),
                    Err(e2) => Err(e2),
                }
            }
        },
        Expr::Call(f, args) => {
            match compile_expr_spec(st, *f, t, impure) {
                Err(e2) => Err(e2),
                Ok(head) => {
                    if args@.len() > 65535 {
                        Err(OrionError::TooManyArguments)
                    } else if head.2.modules.len() <= st.modules.len() {
                        match compile_list_spec(head.2, args@, head.1, impure) {
                            Ok(rest) => Ok(
                                (
                                    head.0 + rest.0 + seq![OpCode::Call(args@.len() as u16)],
                                    rest.1,
                                    rest.2,
                                ),
                            ),
                            Err(e2) => Err(e2),
                        }
                    } else {
                        Err(OrionError::TooManyArguments)
                    }
                },
            }
        },
        Expr::Lambda(params, body) => lambda_spec(st, params, *body, t, impure),
        Expr::Builtin(name, args) => {
            if !has_name(st.builtins, name@) {
                Err(OrionError::UnknownBuiltin(name))
            } else {
                let bi = slot_of(st.builtins, name@);
                if !impure && st.builtins[bi].1 {
                    Err(OrionError::ImpureBuiltin(name))
                } else if args@.len() > 255 {
                    Err(OrionError::TooManyArguments)
                } else {
                    match compile_list_spec(st, args@, t, impure) {
                        Ok(rest) => Ok(
                            (
                                rest.0 + seq![OpCode::Builtin(bi as u8, args@.len() as u8)],
                                rest.1,
                                rest.2,
                            ),
                        ),
                        Err(e2) => Err(e2),
                    }
                }
            }
        },
        Expr::Enum(name, ctors) => {
            match ctors_spec(st.ctor_names, st.ctor_arities, ctors@) {
                Ok(regs) => Ok(
                    (
                        Seq::<OpCode>::empty(),
                        t,
                        CompState { ctor_names: regs.0, ctor_arities: regs.1, ..st },
                    ),
                ),
                Err(e2) => Err(e2),
            }
        },
        Expr::Constr(name, contained) => {
            if !st.ctor_names.contains(name@) {
                Err(OrionError::UnknownConstructor(name))
            } else {
                let idx = st.ctor_names.index_of_first(name@).unwrap();
                let amount = st.ctor_arities[idx];
                if amount as int != contained@.len() {
                    Err(
                        OrionError::ConstructorArity {
                            name: name,
                            expected: amount,
                            given: contained@.len() as usize,
                        },
                    )
                } else {
                    match compile_list_spec(st, contained@, t, impure) {
                        Err(e2) => Err(e2),
                        Ok(rest) => {
                            if rest.0.len() > 65535 {
                                Err(OrionError::OversizedBlock)
                            } else {
                                Ok(
                                    (
                                        seq![
                                            OpCode::Constructor(idx as u16, rest.0.len() as u16),
                                        ] + rest.0,
                                        rest.1,
                                        rest.2,
                                    ),
                                )
                            }
                        },
                    }
                }
            }
        },
        Expr::Quote(e) => {
            match compile_expr_spec(st, *e, t, impure) {
                Err(e2) => Err(e2),
                Ok(out) => {
                    if out.0.len() > 65535 {
                        Err(OrionError::OversizedBlock)
                    } else {
                        Ok(
                            (
                                seq![OpCode::Quote(out.0.len() as u16)] + out.0,
                                out.1,
                                out.2,
                            ),
                        )
                    }
                },
            }
        },
        Expr::Tuple(vals) => {
            if vals@.len() > 65535 {
                Err(OrionError::TooManyArguments)
            } else {
                match compile_list_spec(st, vals@, t, impure) {
                    Err(e2) => Err(e2),
                    Ok(rest) => {
                        if rest.0.len() > 65535 {
                            Err(OrionError::OversizedBlock)
                        } else {
                            Ok(
                                (
                                    seq![
                                        OpCode::Tuple(rest.0.len() as u16, vals@.len() as u16),
                                    ] + rest.0,
                                    rest.1,
                                    rest.2,
                                ),
                            )
                        }
                    },
                }
            }
        },
    }
}


/// The functional model of lowering a lambda: declare the parameters
/// (always pure), rebuild the scope the body sees by substituting each
/// parameter's name in at its slot, compile the body, push the new
/// chunk, and emit one load-lambda instruction.
pub open spec fn lambda_spec(
    st: CompState,
    params: Vec<String>,
    body: Expr,
    t: SymSeq,
    impure: bool,
) -> Result<(Seq<OpCode>, SymSeq, CompState), OrionError>
    decreases st.modules.len(), body, 3int, 0int,
{
    if !can_declare_all(t, params.deep_view()) {
        Err(OrionError::TooManySymbols)
    } else {
        let d = declare_params(t, params.deep_view());
        let run_with = subst_params(d.1, params.deep_view(), d.0);
        match compile_expr_spec(st, body, run_with, impure) {
            Err(e2) => Err(e2),
            Ok(out) => {
                if out.2.chunks.len() >= 65535 {
                    Err(OrionError::TooManyChunks)
                } else {
                    let chunk = ChunkV {
                        instructions: out.0,
                        reference: Seq::new(d.0.len(), |k: int| d.0[k] as u16),
                    };
                    Ok(
                        (
                            seq![OpCode::Lambda(out.2.chunks.len() as u16)],
                            out.1,
                            CompState { chunks: out.2.chunks.push(chunk), ..out.2 },
                        ),
                    )
                }
            },
        }
    }
}

/// The functional model of compiling a run of expressions left to right,
/// threading the table and concatenating the streams.
pub open spec fn compile_list_spec(
    st: CompState,
    exprs: Seq<Expr>,
    t: SymSeq,
    impure: bool,
) -> Result<(Seq<OpCode>, SymSeq, CompState), OrionError>
    decreases st.modules.len(), exprs, 3int, 0int,
{
    if exprs.len() == 0 {
        Ok((Seq::<OpCode>::empty(), t, st))
    } else {
        match compile_expr_spec(st, exprs[0], t, impure) {
            Err(e2) => Err(e2),
            Ok(head) => {
                if head.2.modules.len() <= st.modules.len() {
                    match compile_list_spec(head.2, exprs.drop_first(), head.1, impure) {
                        Ok(rest) => Ok((head.0 + rest.0, rest.1, rest.2)),
                        Err(e2) => Err(e2),
                    }
                } else {
                    Err(OrionError::TooManyArguments)
                }
            },
        }
    }
}

/// The functional model of a run of module loads.
pub open spec fn load_files_spec(
    st: CompState,
    files: Seq<String>,
    t: SymSeq,
    parent: Expr,
) -> Result<(Seq<OpCode>, SymSeq, CompState), OrionError>
    decreases st.modules.len(), parent, 1int, files.len(),
{
    if files.len() == 0 {
        Ok((Seq::<OpCode>::empty(), t, st))
    } else {
        match load_spec(st, files[0], t, parent) {
            Err(e2) => Err(e2),
            Ok(head) => {
                if head.2.modules.len() <= st.modules.len() {
                    match load_files_spec(head.2, files.drop_first(), head.1, parent) {
                        Ok(rest) => Ok((head.0 + rest.0, rest.1, rest.2)),
                        Err(e2) => Err(e2),
                    }
                } else {
                    Err(OrionError::TooManyArguments)
                }
            },
        }
    }
}

/// The functional model of loading one module: a name already in the
/// load history is skipped silently; otherwise the module table must
/// hold it, and its program is compiled left to right under an impure
/// ambient context, the module leaving the table so it is compiled in at
/// most once.
pub open spec fn load_spec(
    st: CompState,
    fname: String,
    t: SymSeq,
    parent: Expr,
) -> Result<(Seq<OpCode>, SymSeq, CompState), OrionError>
    decreases st.modules.len(), parent, 0int, 0int,
{
    if st.history.contains(fname@) {
        Ok((Seq::<OpCode>::empty(), t, st))
    } else if !mod_has(st.modules, fname@) {
        Err(OrionError::FileNotFound(fname))
    } else {
        let k = mod_first(st.modules, fname@);
        let m = st.modules[k];
        let st1 = CompState {
            history: st.history.push(fname@),
            modules: st.modules.remove(k),
            ..st
        };
        proof {
            lemma_mod_first(st.modules, fname@);
            assert(st.modules.remove(k).len() == st.modules.len() - 1);
        }
        compile_list_spec(st1, m.1@, t, true)
    }
}

/// The functional model of compiling a whole program: the instruction
/// stream appended to the container, the final threaded symbol table,
/// and the final table state (constant pool, chunks, constructors,
/// history, modules).
pub open spec fn compile_spec(st: CompState, input: Seq<Expr>) -> Result<
    (Seq<OpCode>, SymSeq, CompState),
    OrionError,
> {
    compile_list_spec(st, input, Seq::<(Seq<char>, bool)>::empty(), true)
}

/// One expression's compilation matches its functional model exactly:
/// the same stream, table and state on success, and the same error on
/// failure.
pub open spec fn expr_mirrors(
    pre: Compiler,
    expr: Expr,
    t: SymSeq,
    impure: bool,
    post: Compiler,
    r: Result<(Vec<OpCode>, SymbolTable), OrionError>,
) -> bool {
    match compile_expr_spec(comp_view(pre), expr, t, impure) {
        Ok(out) => r matches Ok(ok) && ok.0@ == out.0 && ok.1.deep_view() == out.1 && comp_view(
            post,
        ) == out.2,
        Err(e2) => r == Err::<(Vec<OpCode>, SymbolTable), OrionError>(e2),
    }
}

/// A run of expressions' compilation matches its functional model, in
/// the same sense.
pub open spec fn list_mirrors(
    pre: Compiler,
    exprs: Seq<Expr>,
    t: SymSeq,
    impure: bool,
    post: Compiler,
    r: Result<(Vec<OpCode>, SymbolTable), OrionError>,
) -> bool {
    match compile_list_spec(comp_view(pre), exprs, t, impure) {
        Ok(out) => r matches Ok(ok) && ok.0@ == out.0 && ok.1.deep_view() == out.1 && comp_view(
            post,
        ) == out.2,
        Err(e2) => r == Err::<(Vec<OpCode>, SymbolTable), OrionError>(e2),
    }
}

/// One module load matches its functional model, in the same sense.
pub open spec fn load_mirrors(
    pre: Compiler,
    fname: String,
    t: SymSeq,
    parent: Expr,
    post: Compiler,
    r: Result<(Vec<OpCode>, SymbolTable), OrionError>,
) -> bool {
    match load_spec(comp_view(pre), fname, t, parent) {
        Ok(out) => r matches Ok(ok) && ok.0@ == out.0 && ok.1.deep_view() == out.1 && comp_view(
            post,
        ) == out.2,
        Err(e2) => r == Err::<(Vec<OpCode>, SymbolTable), OrionError>(e2),
    }
}

/// The compiler: owns the program being lowered, the container being
/// filled, and the registration tables for builtins, constructors and
/// already loaded modules.
pub struct Compiler {
    /// The parsed program to lower.
    pub input: Vec<Expr>,
    /// The container being filled.
    pub output: Bytecode,
    /// Names of modules already compiled in, each at most once.
    pub load_history: Vec<String>,
    /// The registered builtins: name and purity flag (true = impure).
    pub builtins: Vec<(String, bool)>,
    /// The registered constructor names; positions match
    /// `output.constructors`.
    pub constructors: Vec<String>,
    /// The module table: named, already parsed programs available to
    /// `load` expressions.  Resolving and parsing files is the embedder's
    /// work; a loaded entry is consumed so each module is compiled in at
    /// most once.
    pub modules: Vec<(String, Vec<Expr>)>,
}

impl Compiler {
    /// A fresh compiler over `input`, with the fixed builtin table
    /// registered.
    pub fn new(input: Vec<Expr>) -> (r: Compiler)
        ensures
            r.input == input,
            r.output@.instructions.len() == 0,
            r.output@.constants.len() == 0,
            r.output@.symbols.len() == 0,
            r.output@.constructors.len() == 0,
            r.output@.chunks.len() == 0,
            r.load_history@.len() == 0,
            r.modules@.len() == 0,
            r.constructors@.len() == 0,
            r.builtins.deep_view() =~= seq![("+"@, false), ("dbg"@, true), ("unquote"@, false)],
    {
        let mut to_ret = Compiler {
            input,
            constructors: Vec::new(),
            output: Bytecode::new(),
            load_history: Vec::new(),
            builtins: Vec::new(),
            modules: Vec::new(),
        };
        to_ret.register_builtin("+".to_owned(), false);
        to_ret.register_builtin("dbg".to_owned(), true);
        to_ret.register_builtin("unquote".to_owned(), false);
        proof {
            assert(to_ret.builtins.deep_view() =~= seq![
                ("+"@, false),
                ("dbg"@, true),
                ("unquote"@, false),
            ]);
        }
        to_ret
    }

    /// Append one builtin to the builtin table.
    pub fn register_builtin(&mut self, name: String, impure: bool)
        ensures
            final(self).builtins.deep_view() == old(self).builtins.deep_view().push(
                (name@, impure),
            ),
            final(self).input == old(self).input,
            final(self).output == old(self).output,
            final(self).load_history == old(self).load_history,
            final(self).constructors == old(self).constructors,
            final(self).modules == old(self).modules,
    {
        self.builtins.push((name, impure));
        proof {
            assert(self.builtins.deep_view() =~= old(self).builtins.deep_view().push(
                (name@, impure),
            ));
        }
    }

    /// Intern one literal into the constant pool and return its 16-bit id.
    /// An equal literal already interned is reused; otherwise the literal
    /// is appended.  Fails exactly when the pool outgrows the 16-bit index
    /// space.
    pub fn register_constant(&mut self, constant: &Literal) -> (r: Result<u16, OrionError>)
        ensures
            final(self).output@.constants == intern_pool(old(self).output@.constants, constant@),
            final(self).output@.instructions == old(self).output@.instructions,
            final(self).output@.symbols == old(self).output@.symbols,
            final(self).output@.constructors == old(self).output@.constructors,
            final(self).output@.chunks == old(self).output@.chunks,
            final(self).input == old(self).input,
            final(self).load_history == old(self).load_history,
            final(self).builtins == old(self).builtins,
            final(self).constructors == old(self).constructors,
            final(self).modules == old(self).modules,
            match r {
                Ok(id) => {
                    &&& final(self).output@.constants.len() <= 65535
                    &&& id as int == intern_id(old(self).output@.constants, constant@)
                },
                Err(e) => {
                    &&& e == OrionError::TooManyConstants
                    &&& final(self).output@.constants.len() > 65535
                },
            },
    {
        let ghost old_pool: Seq<LitV> = self.output.constants.deep_view();
        let n = self.output.constants.len();
        let mut i: usize = 0;
        let mut found: bool = false;
        while i < n && !found
            invariant
                n == self.output.constants@.len(),
                i <= n,
                *self == *old(self),
                old_pool == self.output.constants.deep_view(),
                forall|j: int| 0 <= j < i ==> old_pool[j] != constant@,
                found ==> i < n && old_pool[i as int] == constant@,
            decreases n - i + (if found { 0int } else { 1int }),
        {
            if self.output.constants[i].lit_eq(constant) {
                found = true;
            } else {
                i += 1;
            }
        }
        proof {
            if found {
                assert(old_pool.contains(constant@));
            } else {
                assert(!old_pool.contains(constant@));
            }
        }
        if !found {
            self.output.constants.push(constant.duplicate());
            proof {
                assert(self.output.constants.deep_view() =~= old_pool.push(constant@));
            }
        }
        proof {
            assert(self.output.constants.deep_view() == intern_pool(old_pool, constant@));
            lemma_constant_interning(old_pool, constant@);
            assert(old_pool.len() <= intern_pool(old_pool, constant@).len());
        }
        if self.output.constants.len() > 65535 {
            Err(OrionError::TooManyConstants)
        } else {
            proof {
                let pool = self.output.constants.deep_view();
                assert(pool[i as int] == constant@);
                assert(forall|j: int| 0 <= j < i ==> pool[j] != constant@);
                pool.index_of_first_ensures(constant@);
            }
            Ok(i as u16)
        }
    }

    /// The compiler's internal consistency: the constructor name table and
    /// the arity table move in lock step, and every 16-bit-indexed table
    /// stays within its index space.
    pub open spec fn wf(&self) -> bool {
        &&& self.constructors.deep_view().len() == self.output@.constructors.len()
        &&& self.output@.constructors.len() <= 65535
        &&& self.output@.constants.len() <= 65535
        &&& self.output@.chunks.len() <= 65535
        &&& self.builtins@.len() <= 256
    }

    /// Declare `name` in the threaded symbol table at the given purity.
    /// A name already present, at either purity, keeps its slot and the
    /// table is unchanged; otherwise the name is appended and its slot is
    /// the old table length.  Fails exactly when a new entry would outgrow
    /// the 16-bit slot space.
    pub fn declare(&self, name: &String, symbols: SymbolTable, impure: bool) -> (r: Result<
        (u16, SymbolTable),
        OrionError,
    >)
        requires
            symbols.deep_view().len() <= 65535,
        ensures
            match r {
                Ok(ok) => {
                    &&& (ok.0 as int, ok.1.deep_view()) == declare_spec(
                        symbols.deep_view(),
                        name@,
                        impure,
                    )
                    &&& ok.1.deep_view().len() <= 65535
                },
                Err(e) => {
                    &&& e == OrionError::TooManySymbols
                    &&& !has_name(symbols.deep_view(), name@)
                    &&& symbols.deep_view().len() == 65535
                },
            },
    {
        let ghost t = symbols.deep_view();
        proof {
            assert(t.len() == symbols@.len());
        }
        match find_name(&symbols, name) {
            Some(i) => {
                proof {
                    lemma_slot_of(t, name@);
                }
                Ok((i as u16, symbols))
            },
            None => {
                if symbols.len() >= 65535 {
                    Err(OrionError::TooManySymbols)
                } else {
                    let idx = symbols.len();
                    let mut symbols = symbols;
                    symbols.push((name.clone(), impure));
                    proof {
                        assert(symbols.deep_view() =~= t.push((name@, impure)));
                    }
                    Ok((idx as u16, symbols))
                }
            },
        }
    }

    /// Register one algebraic constructor: its name must be new, and its
    /// declared arity is appended to the container's constructor table.
    /// Fails with the index of the earlier registration when the name is
    /// already taken, and when the table would outgrow its 16-bit index
    /// space.
    pub fn register_constructor(&mut self, name: String, contained_amount: u8) -> (r: Result<
        (),
        OrionError,
    >)
        requires
            old(self).wf(),
        ensures
            match r {
                Ok(()) => {
                    &&& !old(self).constructors.deep_view().contains(name@)
                    &&& final(self).constructors.deep_view() == old(
                        self,
                    ).constructors.deep_view().push(name@)
                    &&& final(self).output@.constructors == old(self).output@.constructors.push(
                        contained_amount,
                    )
                    &&& final(self).wf()
                },
                Err(e) => {
                    &&& *final(self) == *old(self)
                    &&& match e {
                        OrionError::DuplicateConstructor(n, idx) => {
                            &&& n == name
                            &&& old(self).constructors.deep_view().contains(name@)
                            &&& Some(idx as int) == old(
                                self,
                            ).constructors.deep_view().index_of_first(name@)
                        },
                        OrionError::TooManyConstructors => {
                            &&& !old(self).constructors.deep_view().contains(name@)
                            &&& old(self).constructors.deep_view().len() == 65535
                        },
                        _ => false,
                    }
                },
            },
            final(self).output@.instructions == old(self).output@.instructions,
            final(self).output@.constants == old(self).output@.constants,
            final(self).output@.symbols == old(self).output@.symbols,
            final(self).output@.chunks == old(self).output@.chunks,
            final(self).input == old(self).input,
            final(self).load_history == old(self).load_history,
            final(self).builtins == old(self).builtins,
            final(self).modules == old(self).modules,
    {
        let ghost t = self.constructors.deep_view();
        proof {
            assert(t.len() == self.constructors@.len());
        }
        match find_string(&self.constructors, &name) {
            Some(i) => {
                proof {
                    t.index_of_first_ensures(name@);
                }
                Err(OrionError::DuplicateConstructor(name, i as u16))
            },
            None => {
                if self.constructors.len() >= 65535 {
                    Err(OrionError::TooManyConstructors)
                } else {
                    self.constructors.push(name);
                    self.output.constructors.push(contained_amount);
                    proof {
                        assert(self.constructors.deep_view() =~= t.push(name@));
                    }
                    Ok(())
                }
            },
        }
    }

    /// Look one constructor up by name: its declared arity and its index.
    /// Fails exactly when the name was never registered.
    pub fn get_constructor(&self, name: &String) -> (r: Result<(u8, u16), OrionError>)
        requires
            self.wf(),
        ensures
            match r {
                Ok(ok) => {
                    &&& self.constructors.deep_view().contains(name@)
                    &&& Some(ok.1 as int) == self.constructors.deep_view().index_of_first(name@)
                    &&& ok.0 == self.output@.constructors[ok.1 as int]
                },
                Err(e) => {
                    &&& !self.constructors.deep_view().contains(name@)
                    &&& e == OrionError::UnknownConstructor(*name)
                },
            },
    {
        match find_string(&self.constructors, name) {
            Some(i) => {
                proof {
                    self.constructors.deep_view().index_of_first_ensures(name@);
                }
                Ok((self.output.constructors[i], i as u16))
            },
            None => Err(OrionError::UnknownConstructor(name.clone())),
        }
    }

    /// Make one named, already parsed module available to `load`
    /// expressions.  Resolving a file against the library search path and
    /// parsing it are the embedder's work.
    pub fn register_module(&mut self, name: String, program: Vec<Expr>)
        ensures
            final(self).modules@ == old(self).modules@.push((name, program)),
            final(self).output == old(self).output,
            final(self).input == old(self).input,
            final(self).load_history == old(self).load_history,
            final(self).builtins == old(self).builtins,
            final(self).constructors == old(self).constructors,
    {
        self.modules.push((name, program));
    }

    /// Compile a list of expressions left to right, threading the symbol
    /// table, and return the concatenated instruction streams.
    fn compile_each(&mut self, exprs: &Vec<Expr>, symbols: SymbolTable, impure: bool) -> (r:
        Result<(Vec<OpCode>, SymbolTable), OrionError>)
        requires
            old(self).wf(),
            symbols.deep_view().len() <= 65535,
        ensures
            r matches Ok(ok) ==> step_frame(
                *old(self),
                symbols.deep_view(),
                *final(self),
                ok.1.deep_view(),
            ),
            exprs@.len() == 0 ==> r is Ok,
            r matches Ok(ok) ==> (exprs@.len() == 0 ==> ok.0@ == Seq::<OpCode>::empty()
                && ok.1.deep_view() == symbols.deep_view() && *final(self) == *old(self)),
            list_mirrors(*old(self), exprs@, symbols.deep_view(), impure, *final(self), r),
        decreases old(self).modules@.len(), exprs, 2int,
    {
        let ghost t0 = symbols.deep_view();
        let mut ops: Vec<OpCode> = Vec::new();
        let mut cur = symbols;
        let mut i: usize = 0;
        proof {
            lemma_step_refl(*self, t0);
            assert(ops@ =~= Seq::<OpCode>::empty());
            assert(exprs@.skip(0) =~= exprs@);
            let full = compile_list_spec(comp_view(*self), exprs@, t0, impure);
            if let Ok(c2) = full {
                assert(ops@ + c2.0 =~= c2.0);
            }
        }
        if exprs.len() == 0 {
            return Ok((ops, cur));
        }
        while i < exprs.len()
            invariant
                i <= exprs@.len(),
                self.wf(),
                cur.deep_view().len() <= 65535,
                t0 == symbols.deep_view(),
                step_frame(*old(self), t0, *self, cur.deep_view()),
                i > 0 ==> exprs@.len() > 0,
                compile_list_spec(comp_view(*old(self)), exprs@, t0, impure) == (match
                    compile_list_spec(
                    comp_view(*self),
                    exprs@.skip(i as int),
                    cur.deep_view(),
                    impure,
                ) {
                    Ok(c2) => Ok::<(Seq<OpCode>, SymSeq, CompState), OrionError>(
                        (ops@ + c2.0, c2.1, c2.2),
                    ),
                    Err(e2) => Err::<(Seq<OpCode>, SymSeq, CompState), OrionError>(e2),
                }),
            decreases exprs@.len() - i,
        {
            let ghost prev = *self;
            let ghost tprev = cur.deep_view();
            let ghost ops_pre = ops@;
            proof {
                broadcast use vstd::std_specs::vec::group_vec_axioms;
                broadcast use vstd::seq::group_seq_axioms;

                assert(decreases_to!(exprs => exprs@));
                assert(decreases_to!(exprs@ => exprs@[i as int]));
                assert(exprs@.skip(i as int)[0] == exprs@[i as int]);
                assert(exprs@.skip(i as int).drop_first() =~= exprs@.skip(i as int + 1));
            }
            match self.compile_expr(&exprs[i], cur, impure) {
                Ok(sub) => {
                    let mut sub_ops = sub.0;
                    cur = sub.1;
                    ops.append(&mut sub_ops);
                    proof {
                        lemma_step_trans(*old(self), t0, prev, tprev, *self, cur.deep_view());
                        let head = compile_expr_spec(
                            comp_view(prev),
                            exprs@[i as int],
                            tprev,
                            impure,
                        );
                        assert(head matches Ok(h) && h.2 == comp_view(*self));
                        let cont = compile_list_spec(
                            comp_view(*self),
                            exprs@.skip(i as int + 1),
                            cur.deep_view(),
                            impure,
                        );
                        if let Ok(h) = head {
                            if let Ok(c2) = cont {
                                assert(ops_pre + (h.0 + c2.0) =~= ops@ + c2.0);
                            }
                        }
                    }
                },
                Err(e) => {
                    return Err(e);
                },
            }
            i += 1;
        }
        proof {
            assert(exprs@.skip(exprs@.len() as int) =~= Seq::<Expr>::empty());
            let cont = compile_list_spec(
                comp_view(*self),
                exprs@.skip(exprs@.len() as int),
                cur.deep_view(),
                impure,
            );
            assert(cont matches Ok(c2) && c2.0 == Seq::<OpCode>::empty());
            if let Ok(c2) = cont {
                assert(ops@ + c2.0 =~= ops@);
            }
        }
        Ok((ops, cur))
    }

    /// Compile one named module in, once: a name already in the load
    /// history is skipped silently; otherwise the module table must hold
    /// it, and its expressions are compiled in order under an impure
    /// ambient context.
    fn load_file(&mut self, fname: &String, symbols: SymbolTable, parent: Ghost<Expr>) -> (r:
        Result<(Vec<OpCode>, SymbolTable), OrionError>)
        requires
            old(self).wf(),
            symbols.deep_view().len() <= 65535,
        ensures
            r matches Ok(ok) ==> step_frame(
                *old(self),
                symbols.deep_view(),
                *final(self),
                ok.1.deep_view(),
            ) && final(self).load_history.deep_view().contains(fname@),
            old(self).load_history.deep_view().contains(fname@) ==> r is Ok && *final(self)
                == *old(self),
            r matches Ok(ok) ==> (old(self).load_history.deep_view().contains(fname@) ==> ok.0@
                == Seq::<OpCode>::empty() && ok.1.deep_view() == symbols.deep_view()),
            load_mirrors(*old(self), *fname, symbols.deep_view(), parent@, *final(self), r),
        decreases old(self).modules@.len(), parent@, 0int,
    {
        let ghost t0 = symbols.deep_view();
        match find_string(&self.load_history, fname) {
            Some(_) => {
                let ops: Vec<OpCode> = Vec::new();
                proof {
                    lemma_step_refl(*self, t0);
                    assert(ops@ =~= Seq::<OpCode>::empty());
                }
                Ok((ops, symbols))
            },
            None => {
                match find_module(&self.modules, fname) {
                    None => Err(OrionError::FileNotFound(fname.clone())),
                    Some(i) => {
                        let ghost pre = *self;
                        proof {
                            lemma_mod_first(pre.modules@, fname@);
                            assert(i as int == mod_first(pre.modules@, fname@)) by {
                                if (i as int) < mod_first(pre.modules@, fname@) {
                                    assert(pre.modules@[i as int].0@ == fname@);
                                }
                            }
                        }
                        self.load_history.push(fname.clone());
                        let m = self.modules.remove(i);
                        let ghost mid = *self;
                        proof {
                            assert(mid.load_history.deep_view() =~= pre.load_history.deep_view()
                                .push(fname@));
                            lemma_push_prefix(pre.load_history.deep_view(), fname@);
                            lemma_prefix_refl(pre.output@.constants);
                            lemma_prefix_refl(pre.output@.chunks);
                            lemma_prefix_refl(pre.output@.constructors);
                            lemma_prefix_refl(pre.constructors.deep_view());
                            assert(step_frame(pre, t0, mid, t0));
                            assert(comp_view(mid) =~= CompState {
                                history: comp_view(pre).history.push(fname@),
                                modules: comp_view(pre).modules.remove(i as int),
                                ..comp_view(pre)
                            });
                        }
                        let r = self.compile_each(&m.1, symbols, true);
                        match r {
                            Ok(ok) => {
                                proof {
                                    lemma_step_trans(pre, t0, mid, t0, *self, ok.1.deep_view());
                                    let h = mid.load_history.deep_view();
                                    assert(h[h.len() - 1] == fname@);
                                    assert(h.contains(fname@));
                                    lemma_contains_prefix(
                                        h,
                                        self.load_history.deep_view(),
                                        fname@,
                                    );
                                }
                                Ok(ok)
                            },
                            Err(e) => Err(e),
                        }
                    },
                }
            },
        }
    }

    /// Lower the whole program: fold over its expressions left to right
    /// under an impure ambient context (the top level may perform
    /// effects), concatenating the emitted instructions and threading the
    /// symbol table; then freeze the declared names into the container
    /// and hand a copy of it out.  Any failing expression aborts the
    /// whole compilation with its error.  [`compile_spec`] is the
    /// functional model: the appended stream, the declared names and the
    /// error are exactly its result.
    pub fn compile(&mut self) -> (r: Result<Bytecode, OrionError>)
        requires
            old(self).wf(),
        ensures
            final(self).input == old(self).input,
            r matches Ok(bc) ==> {
                &&& final(self).wf()
                &&& bc@ == final(self).output@
                &&& old(self).output@.instructions.is_prefix_of(final(self).output@.instructions)
                &&& old(self).output@.constants.is_prefix_of(final(self).output@.constants)
                &&& old(self).output@.chunks.is_prefix_of(final(self).output@.chunks)
                &&& old(self).output@.constructors.is_prefix_of(final(self).output@.constructors)
                &&& bc@.symbols.len() <= 65535
            },
            match compile_spec(comp_view(*old(self)), old(self).input@) {
                Ok(out) => r matches Ok(bc) && bc@.instructions == old(
                    self,
                ).output@.instructions + out.0 && bc@.symbols == table_names(out.1) && comp_view(
                    *final(self),
                ) == out.2 && bc@.constants == out.2.constants && bc@.chunks == out.2.chunks
                    && bc@.constructors == out.2.ctor_arities,
                Err(e2) => r == Err::<Bytecode, OrionError>(e2),
            },
    {
        let ghost pre = *old(self);
        let ghost st0 = comp_view(pre);
        let ghost input0 = pre.input;
        let ghost t_empty = Seq::<(Seq<char>, bool)>::empty();
        let mut symbols: SymbolTable = Vec::new();
        let mut input: Vec<Expr> = Vec::new();
        core::mem::swap(&mut input, &mut self.input);
        let mut i: usize = 0;
        proof {
            lemma_tables_refl(*self);
            lemma_prefix_refl(pre.output@.instructions);
            assert(symbols.deep_view() =~= t_empty);
            assert(input@.skip(0) =~= input@);
            assert(comp_view(*self) =~= st0);
            assert(self.output@.instructions.skip(pre.output@.instructions.len() as int)
                =~= Seq::<OpCode>::empty());
            let full = compile_list_spec(st0, input0@, t_empty, true);
            if let Ok(c2) = full {
                assert(Seq::<OpCode>::empty() + c2.0 =~= c2.0);
            }
        }
        while i < input.len()
            invariant
                i <= input@.len(),
                self.wf(),
                symbols.deep_view().len() <= 65535,
                self.input@.len() == 0,
                input == input0,
                pre == *old(self),
                st0 == comp_view(pre),
                input0 == old(self).input,
                t_empty == Seq::<(Seq<char>, bool)>::empty(),
                pre.output@.instructions.is_prefix_of(self.output@.instructions),
                pre.output@.instructions.len() <= self.output@.instructions.len(),
                pre.output@.constants.is_prefix_of(self.output@.constants),
                pre.output@.chunks.is_prefix_of(self.output@.chunks),
                pre.output@.constructors.is_prefix_of(self.output@.constructors),
                compile_list_spec(st0, input0@, t_empty, true) == (match compile_list_spec(
                    comp_view(*self),
                    input@.skip(i as int),
                    symbols.deep_view(),
                    true,
                ) {
                    Ok(c2) => Ok::<(Seq<OpCode>, SymSeq, CompState), OrionError>(
                        (
                            self.output@.instructions.skip(
                                pre.output@.instructions.len() as int,
                            ) + c2.0,
                            c2.1,
                            c2.2,
                        ),
                    ),
                    Err(e2) => Err::<(Seq<OpCode>, SymSeq, CompState), OrionError>(e2),
                }),
            decreases input@.len() - i,
        {
            let ghost prev = *self;
            let ghost tprev = symbols.deep_view();
            let ghost done_pre = self.output@.instructions.skip(
                pre.output@.instructions.len() as int,
            );
            proof {
                assert(input@.skip(i as int)[0] == input@[i as int]);
                assert(input@.skip(i as int).drop_first() =~= input@.skip(i as int + 1));
            }
            match self.compile_expr(&input[i], symbols, true) {
                Ok(ok) => {
                    let mut ops = ok.0;
                    let ghost new_ops = ops@;
                    symbols = ok.1;
                    self.output.instructions.append(&mut ops);
                    proof {
                        lemma_add_prefix(prev.output@.instructions, new_ops);
                        lemma_prefix_trans(
                            pre.output@.instructions,
                            prev.output@.instructions,
                            self.output@.instructions,
                        );
                        lemma_prefix_trans(
                            pre.output@.constants,
                            prev.output@.constants,
                            self.output@.constants,
                        );
                        lemma_prefix_trans(
                            pre.output@.chunks,
                            prev.output@.chunks,
                            self.output@.chunks,
                        );
                        lemma_prefix_trans(
                            pre.output@.constructors,
                            prev.output@.constructors,
                            self.output@.constructors,
                        );
                        let head = compile_expr_spec(
                            comp_view(prev),
                            input@[i as int],
                            tprev,
                            true,
                        );
                        assert(head matches Ok(h) && h.2 == comp_view(*self) && h.0 == new_ops);
                        let cont = compile_list_spec(
                            comp_view(*self),
                            input@.skip(i as int + 1),
                            symbols.deep_view(),
                            true,
                        );
                        assert(self.output@.instructions.skip(
                            pre.output@.instructions.len() as int,
                        ) =~= done_pre + new_ops);
                        if let Ok(h) = head {
                            if let Ok(c2) = cont {
                                assert(done_pre + (h.0 + c2.0) =~= (done_pre + new_ops) + c2.0);
                            }
                        }
                    }
                },
                Err(e) => {
                    self.input = input;
                    return Err(e);
                },
            }
            i += 1;
        }
        self.input = input;
        let ghost tfin = symbols.deep_view();
        let ghost done = self.output@.instructions.skip(pre.output@.instructions.len() as int);
        proof {
            assert(input0@.skip(input0@.len() as int) =~= Seq::<Expr>::empty());
            let cont = compile_list_spec(
                comp_view(*self),
                input0@.skip(input0@.len() as int),
                tfin,
                true,
            );
            assert(cont matches Ok(c2) && c2.0 == Seq::<OpCode>::empty());
            if let Ok(c2) = cont {
                assert(done + c2.0 =~= done);
            }
            assert(self.output@.instructions =~= pre.output@.instructions + done);
        }
        let ghost st_end = comp_view(*self);
        let mut names: Vec<String> = Vec::new();
        let mut j: usize = 0;
        while j < symbols.len()
            invariant
                j <= symbols@.len(),
                names@.len() == j,
                tfin == symbols.deep_view(),
                tfin.len() == symbols@.len(),
                forall|k: int| 0 <= k < j ==> (#[trigger] names@[k])@ == tfin[k].0,
            decreases symbols@.len() - j,
        {
            proof {
                assert(tfin[j as int] == (symbols@[j as int].0@, symbols@[j as int].1));
            }
            names.push(symbols[j].0.clone());
            j += 1;
        }
        proof {
            assert forall|k: int| 0 <= k < tfin.len() implies names.deep_view()[k] == table_names(
                tfin,
            )[k] by {
                assert(names.deep_view()[k] == names@[k]@);
            }
            assert(names.deep_view() =~= table_names(tfin));
        }
        self.output.symbols = names;
        proof {
            assert(comp_view(*self) =~= st_end);
        }
        Ok(self.output.duplicate())
    }

    /// Lower a lambda: declare the formal parameters (always pure) to
    /// collect their slots, rebuild the scope the body should see by
    /// substituting each parameter's name in at its slot, compile the body
    /// under that table, push the new chunk, and emit one load-lambda
    /// instruction.
    fn compile_lambda(
        &mut self,
        params: &Vec<String>,
        body: &Expr,
        symbols: SymbolTable,
        impure: bool,
    ) -> (r: Result<(Vec<OpCode>, SymbolTable), OrionError>)
        requires
            old(self).wf(),
            symbols.deep_view().len() <= 65535,
        ensures
            r matches Ok(ok) ==> step_frame(
                *old(self),
                symbols.deep_view(),
                *final(self),
                ok.1.deep_view(),
            ),
            post_lambda(*old(self), params.deep_view(), symbols.deep_view(), *final(self), r),
            match lambda_spec(comp_view(*old(self)), *params, *body, symbols.deep_view(), impure) {
                Ok(out) => r matches Ok(ok) && ok.0@ == out.0 && ok.1.deep_view() == out.1
                    && comp_view(*final(self)) == out.2,
                Err(e2) => r == Err::<(Vec<OpCode>, SymbolTable), OrionError>(e2),
            },
        decreases old(self).modules@.len(), *body, 2int,
    {
        let ghost t0 = symbols.deep_view();
        let ghost pv = params.deep_view();
        let mut syms = symbols;
        let mut refs: Vec<u16> = Vec::new();
        let mut i: usize = 0;
        proof {
            assert(pv.skip(0) =~= pv);
            assert(Seq::new(0, |k: int| refs@[k] as int) =~= Seq::<int>::empty());
            let rest = declare_params(t0, pv);
            assert(Seq::<int>::empty() + rest.0 =~= rest.0);
        }
        while i < params.len()
            invariant
                i <= pv.len(),
                pv == params.deep_view(),
                pv.len() == params@.len(),
                t0 == symbols.deep_view(),
                syms.deep_view().len() <= 65535,
                *self == *old(self),
                refs@.len() == i,
                ({
                    let rest = declare_params(syms.deep_view(), pv.skip(i as int));
                    &&& declare_params(t0, pv).0 == Seq::new(
                        refs@.len() as nat,
                        |k: int| refs@[k] as int,
                    ) + rest.0
                    &&& declare_params(t0, pv).1 == rest.1
                }),
                can_declare_all(t0, pv) <==> can_declare_all(
                    syms.deep_view(),
                    pv.skip(i as int),
                ),
            decreases pv.len() - i,
        {
            let ghost tprev = syms.deep_view();
            let ghost refs_pre = refs@;
            proof {
                assert(pv[i as int] == params@[i as int]@);
                assert(pv.skip(i as int)[0] == pv[i as int]);
                assert(pv.skip(i as int).drop_first() =~= pv.skip(i as int + 1));
            }
            match self.declare(&params[i], syms, false) {
                Err(e) => {
                    proof {
                        assert(!can_declare_all(tprev, pv.skip(i as int)));
                    }
                    return Err(e);
                },
                Ok(d) => {
                    refs.push(d.0);
                    syms = d.1;
                    proof {
                        let dsp = declare_spec(tprev, pv[i as int], false);
                        assert((d.0 as int, syms.deep_view()) == dsp);
                        let rest_new = declare_params(syms.deep_view(), pv.skip(i as int + 1));
                        assert(declare_params(tprev, pv.skip(i as int)).0 == seq![dsp.0]
                            + rest_new.0);
                        assert(Seq::new(refs@.len() as nat, |k: int| refs@[k] as int)
                            =~= Seq::new(refs_pre.len() as nat, |k: int| refs_pre[k] as int).push(
                            d.0 as int,
                        ));
                        assert(Seq::new(refs_pre.len() as nat, |k: int| refs_pre[k] as int).push(
                            d.0 as int,
                        ) + rest_new.0 =~= Seq::new(
                            refs_pre.len() as nat,
                            |k: int| refs_pre[k] as int,
                        ) + (seq![dsp.0] + rest_new.0));
                    }
                },
            }
            i += 1;
        }
        let ghost slots = declare_params(t0, pv).0;
        let ghost ts = syms.deep_view();
        proof {
            assert(pv.skip(pv.len() as int) =~= Seq::<Seq<char>>::empty());
            let rest = declare_params(ts, pv.skip(pv.len() as int));
            assert(rest.0 =~= Seq::<int>::empty());
            assert(Seq::new(refs@.len() as nat, |k: int| refs@[k] as int) + rest.0 =~= Seq::new(
                refs@.len() as nat,
                |k: int| refs@[k] as int,
            ));
            assert(slots == Seq::new(refs@.len() as nat, |k: int| refs@[k] as int));
            assert(declare_params(t0, pv).1 == ts);
            lemma_declare_params_props(t0, pv);
        }
        let ghost rw = subst_params(ts, pv, slots);
        let mut run_with: Vec<(String, bool)> = Vec::new();
        let mut p: usize = 0;
        while p < syms.len()
            invariant
                p <= ts.len(),
                ts == syms.deep_view(),
                ts.len() == syms@.len(),
                pv == params.deep_view(),
                pv.len() == params@.len(),
                slots == declare_params(t0, pv).0,
                slots == Seq::new(refs@.len() as nat, |k: int| refs@[k] as int),
                declare_params(t0, pv).1 == ts,
                refs@.len() == pv.len(),
                rw == subst_params(ts, pv, slots),
                run_with@.len() == p,
                run_with.deep_view().len() == p,
                forall|j: int| 0 <= j < p ==> #[trigger] run_with.deep_view()[j] == rw[j],
            decreases ts.len() - p,
        {
            proof {
                lemma_declare_params_props(t0, pv);
            }
            let ghost rw_pre = run_with@;
            let ghost rwd_pre = run_with.deep_view();
            match find_slot(&refs, p) {
                Some(k) => {
                    proof {
                        assert(slots[k as int] == refs@[k as int] as int);
                        assert(slot_hit(slots, p as int));
                        lemma_first_hit(slots, p as int);
                        assert(first_hit(slots, p as int) == k as int) by {
                            if first_hit(slots, p as int) < k as int {
                                assert(refs@[first_hit(slots, p as int)] as int == p as int);
                            }
                        }
                        assert(pv[k as int] == params@[k as int]@);
                        assert(rw[p as int] == (pv[k as int], false));
                    }
                    run_with.push((params[k].clone(), false));
                },
                None => {
                    let entry = (syms[p].0.clone(), syms[p].1);
                    proof {
                        assert(!slot_hit(slots, p as int)) by {
                            if slot_hit(slots, p as int) {
                                let k = choose|k: int|
                                    0 <= k < slots.len() && slots[k] == p as int;
                                assert(refs@[k] as int == p as int);
                            }
                        }
                        assert(ts[p as int] == (syms@[p as int].0@, syms@[p as int].1));
                        assert(rw[p as int] == ts[p as int]);
                    }
                    run_with.push(entry);
                },
            }
            proof {
                assert forall|j: int|
                    0 <= j < p + 1 implies #[trigger] run_with.deep_view()[j] == rw[j] by {
                    assert(run_with.deep_view()[j] == (run_with@[j].0@, run_with@[j].1));
                    if j < p {
                        assert(run_with@[j] == rw_pre[j]);
                        assert(rwd_pre[j] == (rw_pre[j].0@, rw_pre[j].1));
                    }
                }
            }
            p += 1;
        }
        let ghost trw = run_with.deep_view();
        proof {
            assert(trw =~= rw);
            assert(trw.len() == ts.len());
            assert forall|j: int| 0 <= j < ts.len() implies (#[trigger] trw[j]).0 == ts[j].0 by {
                if slot_hit(slots, j) {
                    lemma_first_hit(slots, j);
                    let k = first_hit(slots, j);
                    assert(declare_params(t0, pv).1[declare_params(t0, pv).0[k]].0 == pv[k]);
                }
            }
            assert(syms_extend(t0, trw)) by {
                assert(forall|j: int| 0 <= j < t0.len() ==> (#[trigger] ts[j]).0 == t0[j].0);
            }
        }
        match self.compile_expr(body, run_with, impure) {
            Err(e) => Err(e),
            Ok(sub) => {
                let chunk_ops = sub.0;
                let new_syms = sub.1;
                if self.output.chunks.len() >= 65535 {
                    return Err(OrionError::TooManyChunks);
                }
                let ghost mid = *self;
                let ghost refs_snap = refs@;
                let chunk = Chunk { instructions: chunk_ops, reference: refs };
                let ghost chv = chunk@;
                self.output.chunks.push(chunk);
                let id = self.output.chunks.len() - 1;
                let mut ops: Vec<OpCode> = Vec::new();
                ops.push(OpCode::Lambda(id as u16));
                proof {
                    assert(ops@ =~= seq![OpCode::Lambda(id as u16)]);
                    assert(self.output.chunks.deep_view() =~= mid.output.chunks.deep_view().push(
                        chv,
                    ));
                    lemma_push_prefix(mid.output@.chunks, chv);
                    lemma_prefix_refl(mid.output@.constants);
                    lemma_prefix_refl(mid.output@.constructors);
                    lemma_prefix_refl(mid.constructors.deep_view());
                    lemma_prefix_refl(mid.load_history.deep_view());
                    assert(step_frame(mid, new_syms.deep_view(), *self, new_syms.deep_view()));
                    lemma_step_refl(*old(self), t0);
                    assert(step_frame(*old(self), t0, *old(self), trw));
                    lemma_step_trans(
                        *old(self),
                        t0,
                        *old(self),
                        trw,
                        mid,
                        new_syms.deep_view(),
                    );
                    lemma_step_trans(
                        *old(self),
                        t0,
                        mid,
                        new_syms.deep_view(),
                        *self,
                        new_syms.deep_view(),
                    );
                    assert(self.output@.chunks.last() == chv);
                    assert(chv.reference == refs_snap);
                    assert(chv.reference =~= Seq::new(slots.len(), |k: int| slots[k] as u16));
                    assert(comp_view(*self) =~= CompState {
                        chunks: comp_view(mid).chunks.push(chv),
                        ..comp_view(mid)
                    });
                }
                Ok((ops, new_syms))
            },
        }
    }

    /// Transform one expression, under the threaded symbol table and the
    /// ambient purity, into an instruction stream plus the updated table.
    /// [`compile_post`] states what each case does.
    pub fn compile_expr(&mut self, expr: &Expr, symbols: SymbolTable, impure: bool) -> (r: Result<
        (Vec<OpCode>, SymbolTable),
        OrionError,
    >)
        requires
            old(self).wf(),
            symbols.deep_view().len() <= 65535,
        ensures
            compile_post(*old(self), *expr, symbols.deep_view(), impure, *final(self), r),
            expr_mirrors(*old(self), *expr, symbols.deep_view(), impure, *final(self), r),
        decreases old(self).modules@.len(), *expr, 1int,
    {
        let ghost t0 = symbols.deep_view();
        match expr {
            Expr::Literal(lit) => {
                match self.register_constant(lit) {
                    Ok(id) => {
                        let mut ops: Vec<OpCode> = Vec::new();
                        ops.push(OpCode::LoadConst(id));
                        proof {
                            assert(ops@ =~= seq![OpCode::LoadConst(id)]);
                            assert(comp_view(*self) =~= CompState {
                                constants: intern_pool(
                                    comp_view(*old(self)).constants,
                                    lit@,
                                ),
                                ..comp_view(*old(self))
                            });
                            lemma_prefix_refl(old(self).output@.chunks);
                            lemma_prefix_refl(old(self).output@.constructors);
                            lemma_prefix_refl(old(self).constructors.deep_view());
                            lemma_prefix_refl(old(self).load_history.deep_view());
                            lemma_constant_interning(old(self).output@.constants, lit@);
                            if old(self).output@.constants.contains(lit@) {
                                lemma_prefix_refl(old(self).output@.constants);
                            } else {
                                lemma_push_prefix(old(self).output@.constants, lit@);
                            }
                        }
                        Ok((ops, symbols))
                    },
                    Err(e) => Err(e),
                }
            },
            Expr::Var(name) => {
                if contains_entry(&symbols, name, impure) {
                    match self.declare(name, symbols, impure) {
                        Ok(ok) => {
                            proof {
                                let i = choose|i: int|
                                    0 <= i < t0.len() && #[trigger] t0[i] == (name@, impure);
                                assert(has_name(t0, name@));
                                lemma_slot_of(t0, name@);
                                lemma_step_refl(*old(self), t0);
                            }
                            let mut ops: Vec<OpCode> = Vec::new();
                            ops.push(OpCode::LoadSym(ok.0));
                            proof {
                                assert(ops@ =~= seq![OpCode::LoadSym(ok.0)]);
                            }
                            Ok((ops, ok.1))
                        },
                        Err(e) => {
                            proof {
                                let i = choose|i: int|
                                    0 <= i < t0.len() && #[trigger] t0[i] == (name@, impure);
                                assert(has_name(t0, name@));
                                assert(false);
                            }
                            Err(e)
                        },
                    }
                } else if impure && contains_entry(&symbols, name, false) {
                    match self.declare(name, symbols, impure) {
                        Ok(ok) => {
                            proof {
                                let i = choose|i: int|
                                    0 <= i < t0.len() && #[trigger] t0[i] == (name@, false);
                                assert(has_name(t0, name@));
                                lemma_slot_of(t0, name@);
                                lemma_step_refl(*old(self), t0);
                            }
                            let mut ops: Vec<OpCode> = Vec::new();
                            ops.push(OpCode::LoadSym(ok.0));
                            proof {
                                assert(ops@ =~= seq![OpCode::LoadSym(ok.0)]);
                            }
                            Ok((ops, ok.1))
                        },
                        Err(e) => {
                            proof {
                                let i = choose|i: int|
                                    0 <= i < t0.len() && #[trigger] t0[i] == (name@, false);
                                assert(has_name(t0, name@));
                                assert(false);
                            }
                            Err(e)
                        },
                    }
                } else if !impure && contains_entry(&symbols, name, true) {
                    Err(OrionError::ImpureSymbol(name.clone()))
                } else {
                    Err(OrionError::UnboundVariable(name.clone()))
                }
            },
            Expr::Load(files) => {
                let mut ops: Vec<OpCode> = Vec::new();
                let mut cur = symbols;
                let mut i: usize = 0;
                proof {
                    lemma_step_refl(*self, t0);
                    assert(ops@ =~= Seq::<OpCode>::empty());
                    assert(files@.skip(0) =~= files@);
                    let full = load_files_spec(comp_view(*self), files@, t0, *expr);
                    if let Ok(c2) = full {
                        assert(ops@ + c2.0 =~= c2.0);
                    }
                }
                while i < files.len()
                    invariant
                        *expr == Expr::Load(*files),
                        i <= files@.len(),
                        self.wf(),
                        cur.deep_view().len() <= 65535,
                        t0 == symbols.deep_view(),
                        step_frame(*old(self), t0, *self, cur.deep_view()),
                        forall|j: int|
                            0 <= j < i ==> self.load_history.deep_view().contains(
                                #[trigger] files.deep_view()[j],
                            ),
                        load_files_spec(comp_view(*old(self)), files@, t0, *expr) == (match
                            load_files_spec(
                            comp_view(*self),
                            files@.skip(i as int),
                            cur.deep_view(),
                            *expr,
                        ) {
                            Ok(c2) => Ok::<(Seq<OpCode>, SymSeq, CompState), OrionError>(
                                (ops@ + c2.0, c2.1, c2.2),
                            ),
                            Err(e2) => Err::<(Seq<OpCode>, SymSeq, CompState), OrionError>(e2),
                        }),
                    decreases files@.len() - i,
                {
                    let ghost prev = *self;
                    let ghost tprev = cur.deep_view();
                    let ghost ops_pre = ops@;
                    proof {
                        assert(files@.skip(i as int)[0] == files@[i as int]);
                        assert(files@.skip(i as int).drop_first() =~= files@.skip(i as int + 1));
                    }
                    match self.load_file(&files[i], cur, Ghost(*expr)) {
                        Ok(sub) => {
                            let mut sub_ops = sub.0;
                            cur = sub.1;
                            ops.append(&mut sub_ops);
                            proof {
                                lemma_step_trans(
                                    *old(self),
                                    t0,
                                    prev,
                                    tprev,
                                    *self,
                                    cur.deep_view(),
                                );
                                assert(files.deep_view()[i as int] == files@[i as int]@);
                                assert forall|j: int|
                                    0 <= j < i + 1 implies self.load_history.deep_view().contains(
                                    #[trigger] files.deep_view()[j],
                                ) by {
                                    if j < i {
                                        lemma_contains_prefix(
                                            prev.load_history.deep_view(),
                                            self.load_history.deep_view(),
                                            files.deep_view()[j],
                                        );
                                    }
                                }
                                let head = load_spec(
                                    comp_view(prev),
                                    files@[i as int],
                                    tprev,
                                    *expr,
                                );
                                assert(head matches Ok(h) && h.2 == comp_view(*self));
                                let cont = load_files_spec(
                                    comp_view(*self),
                                    files@.skip(i as int + 1),
                                    cur.deep_view(),
                                    *expr,
                                );
                                if let Ok(h) = head {
                                    if let Ok(c2) = cont {
                                        assert(ops_pre + (h.0 + c2.0) =~= ops@ + c2.0);
                                    }
                                }
                            }
                        },
                        Err(e) => {
                            return Err(e);
                        },
                    }
                    i += 1;
                }
                proof {
                    assert(files@.skip(files@.len() as int) =~= Seq::<String>::empty());
                    let cont = load_files_spec(
                        comp_view(*self),
                        files@.skip(files@.len() as int),
                        cur.deep_view(),
                        *expr,
                    );
                    assert(cont matches Ok(c2) && c2.0 == Seq::<OpCode>::empty());
                    if let Ok(c2) = cont {
                        assert(ops@ + c2.0 =~= ops@);
                    }
                }
                Ok((ops, cur))
            },
            Expr::Def(name, e, purity) => {
                match self.declare(name, symbols, *purity) {
                    Err(e2) => Err(e2),
                    Ok(d) => {
                        let idx = d.0;
                        let ghost t1 = d.1.deep_view();
                        match self.compile_expr(e, d.1, *purity) {
                            Err(e2) => Err(e2),
                            Ok(sub) => {
                                let mut ops = sub.0;
                                ops.push(OpCode::Def(idx));
                                proof {
                                    lemma_step_refl(*old(self), t0);
                                    if !has_name(t0, name@) {
                                        assert(syms_extend(t0, t1)) by {
                                            lemma_push_prefix(t0, (name@, *purity));
                                        }
                                    }
                                    lemma_step_trans(
                                        *old(self),
                                        t0,
                                        *old(self),
                                        t1,
                                        *self,
                                        sub.1.deep_view(),
                                    );
                                }
                                Ok((ops, sub.1))
                            },
                        }
                    },
                }
            },
            Expr::Call(f, args) => {
                match self.compile_expr(f, symbols, impure) {
                    Err(e2) => Err(e2),
                    Ok(sub) => {
                        if args.len() > 65535 {
                            return Err(OrionError::TooManyArguments);
                        }
                        let mut ops = sub.0;
                        let ghost head_ops = ops@;
                        let ghost prev = *self;
                        let ghost tprev = sub.1.deep_view();
                        match self.compile_each(args, sub.1, impure) {
                            Err(e2) => Err(e2),
                            Ok(sub2) => {
                                let mut arg_ops = sub2.0;
                                let ghost argops = arg_ops@;
                                ops.append(&mut arg_ops);
                                ops.push(OpCode::Call(args.len() as u16));
                                proof {
                                    assert(ops@ =~= head_ops + argops + seq![
                                        OpCode::Call(args@.len() as u16),
                                    ]);
                                    lemma_step_trans(
                                        *old(self),
                                        t0,
                                        prev,
                                        tprev,
                                        *self,
                                        sub2.1.deep_view(),
                                    );
                                }
                                Ok((ops, sub2.1))
                            },
                        }
                    },
                }
            },
            Expr::Lambda(params, body) => self.compile_lambda(params, &**body, symbols, impure),
            Expr::Builtin(name, args) => {
                match find_name(&self.builtins, name) {
                    None => Err(OrionError::UnknownBuiltin(name.clone())),
                    Some(bi) => {
                        proof {
                            lemma_slot_of(self.builtins.deep_view(), name@);
                            assert(self.builtins.deep_view()[bi as int] == (
                                self.builtins@[bi as int].0@,
                                self.builtins@[bi as int].1,
                            ));
                        }
                        let impure_builtin = self.builtins[bi].1;
                        if !impure && impure_builtin {
                            Err(OrionError::ImpureBuiltin(name.clone()))
                        } else if args.len() > 255 {
                            Err(OrionError::TooManyArguments)
                        } else {
                            match self.compile_each(args, symbols, impure) {
                                Err(e2) => Err(e2),
                                Ok(sub) => {
                                    let mut ops = sub.0;
                                    let ghost argops = ops@;
                                    ops.push(OpCode::Builtin(bi as u8, args.len() as u8));
                                    proof {
                                        assert(ops@ =~= argops + seq![
                                            OpCode::Builtin(bi as u8, args@.len() as u8),
                                        ]);
                                        if args@.len() == 0 {
                                            assert(ops@ =~= seq![
                                                OpCode::Builtin(bi as u8, 0),
                                            ]);
                                        }
                                    }
                                    Ok((ops, sub.1))
                                },
                            }
                        }
                    },
                }
            },
            Expr::Enum(ename, ctors) => {
                let ghost pre = *self;
                let ghost cv = ctors.deep_view();
                let mut i: usize = 0;
                proof {
                    assert(ctors@.skip(0) =~= ctors@);
                    assert(cv.subrange(0, 0).map_values(|c: (Seq<char>, u8)| c.0) =~= Seq::<
                        Seq<char>,
                    >::empty());
                    assert(cv.subrange(0, 0).map_values(|c: (Seq<char>, u8)| c.1) =~= Seq::<
                        u8,
                    >::empty());
                    assert(pre.constructors.deep_view() + cv.subrange(0, 0).map_values(
                        |c: (Seq<char>, u8)| c.0,
                    ) =~= pre.constructors.deep_view());
                    assert(pre.output@.constructors + cv.subrange(0, 0).map_values(
                        |c: (Seq<char>, u8)| c.1,
                    ) =~= pre.output@.constructors);
                }
                while i < ctors.len()
                    invariant
                        *expr == Expr::Enum(*ename, *ctors),
                        symbols.deep_view() == t0,
                        t0.len() <= 65535,
                        i <= ctors@.len(),
                        cv == ctors.deep_view(),
                        cv.len() == ctors@.len(),
                        pre == *old(self),
                        pre.wf(),
                        self.wf(),
                        only_constructors_changed(pre, *self),
                        self.constructors.deep_view() == pre.constructors.deep_view()
                            + cv.subrange(0, i as int).map_values(|c: (Seq<char>, u8)| c.0),
                        self.output@.constructors == pre.output@.constructors + cv.subrange(
                            0,
                            i as int,
                        ).map_values(|c: (Seq<char>, u8)| c.1),
                        ctors_spec(
                            comp_view(pre).ctor_names,
                            comp_view(pre).ctor_arities,
                            ctors@,
                        ) == ctors_spec(
                            self.constructors.deep_view(),
                            self.output@.constructors,
                            ctors@.skip(i as int),
                        ),
                    decreases ctors@.len() - i,
                {
                    let ghost before = *self;
                    proof {
                        assert(cv[i as int] == (ctors@[i as int].0@, ctors@[i as int].1));
                        assert(ctors@.skip(i as int)[0] == ctors@[i as int]);
                        assert(ctors@.skip(i as int).drop_first() =~= ctors@.skip(i as int + 1));
                    }
                    match self.register_constructor(ctors[i].0.clone(), ctors[i].1) {
                        Err(e2) => {
                            proof {
                                assert(ctors_spec(
                                    before.constructors.deep_view(),
                                    before.output@.constructors,
                                    ctors@.skip(i as int),
                                ) == Err::<(Seq<Seq<char>>, Seq<u8>), OrionError>(e2));
                            }
                            return Err(e2);
                        },
                        Ok(()) => {
                            proof {
                                assert(cv.subrange(0, i + 1).map_values(
                                    |c: (Seq<char>, u8)| c.0,
                                ) =~= cv.subrange(0, i as int).map_values(
                                    |c: (Seq<char>, u8)| c.0,
                                ).push(cv[i as int].0));
                                assert(cv.subrange(0, i + 1).map_values(
                                    |c: (Seq<char>, u8)| c.1,
                                ) =~= cv.subrange(0, i as int).map_values(
                                    |c: (Seq<char>, u8)| c.1,
                                ).push(cv[i as int].1));
                                assert(self.constructors.deep_view() =~= pre
                                    .constructors.deep_view() + cv.subrange(0, i + 1).map_values(
                                    |c: (Seq<char>, u8)| c.0,
                                ));
                                assert(self.output@.constructors =~= pre.output@.constructors
                                    + cv.subrange(0, i + 1).map_values(|c: (Seq<char>, u8)| c.1));
                            }
                        },
                    }
                    i += 1;
                }
                let ops: Vec<OpCode> = Vec::new();
                proof {
                    assert(ops@ =~= Seq::<OpCode>::empty());
                    assert(ctors@.skip(ctors@.len() as int) =~= Seq::<(String, u8)>::empty());
                    assert(comp_view(*self) =~= CompState {
                        ctor_names: self.constructors.deep_view(),
                        ctor_arities: self.output@.constructors,
                        ..comp_view(pre)
                    });
                    assert(cv.subrange(0, cv.len() as int) =~= cv);
                    lemma_prefix_refl(pre.output@.constants);
                    lemma_prefix_refl(pre.output@.chunks);
                    lemma_prefix_refl(pre.load_history.deep_view());
                    lemma_add_prefix(
                        pre.output@.constructors,
                        cv.map_values(|c: (Seq<char>, u8)| c.1),
                    );
                    lemma_add_prefix(
                        pre.constructors.deep_view(),
                        cv.map_values(|c: (Seq<char>, u8)| c.0),
                    );
                }
                Ok((ops, symbols))
            },
            Expr::Constr(name, contained) => {
                match self.get_constructor(name) {
                    Err(e2) => Err(e2),
                    Ok(c) => {
                        let amount = c.0;
                        let idx = c.1;
                        if (amount as usize) != contained.len() {
                            Err(
                                OrionError::ConstructorArity {
                                    name: name.clone(),
                                    expected: amount,
                                    given: contained.len(),
                                },
                            )
                        } else {
                            match self.compile_each(contained, symbols, impure) {
                                Err(e2) => Err(e2),
                                Ok(sub) => {
                                    let values = sub.0;
                                    if values.len() > 65535 {
                                        return Err(OrionError::OversizedBlock);
                                    }
                                    let mut ops: Vec<OpCode> = Vec::new();
                                    ops.push(OpCode::Constructor(idx, values.len() as u16));
                                    extend_ops(&mut ops, &values);
                                    proof {
                                        assert(ops@ =~= seq![
                                            OpCode::Constructor(idx, values@.len() as u16),
                                        ] + values@);
                                    }
                                    Ok((ops, sub.1))
                                },
                            }
                        }
                    },
                }
            },
            Expr::Quote(e) => {
                match self.compile_expr(e, symbols, impure) {
                    Err(e2) => Err(e2),
                    Ok(sub) => {
                        let body = sub.0;
                        if body.len() > 65535 {
                            return Err(OrionError::OversizedBlock);
                        }
                        let mut ops: Vec<OpCode> = Vec::new();
                        ops.push(OpCode::Quote(body.len() as u16));
                        extend_ops(&mut ops, &body);
                        proof {
                            assert(ops@ =~= seq![OpCode::Quote(body@.len() as u16)] + body@);
                        }
                        Ok((ops, sub.1))
                    },
                }
            },
            Expr::Tuple(vals) => {
                if vals.len() > 65535 {
                    return Err(OrionError::TooManyArguments);
                }
                match self.compile_each(vals, symbols, impure) {
                    Err(e2) => Err(e2),
                    Ok(sub) => {
                        let values = sub.0;
                        if values.len() > 65535 {
                            return Err(OrionError::OversizedBlock);
                        }
                        let mut ops: Vec<OpCode> = Vec::new();
                        ops.push(OpCode::Tuple(values.len() as u16, vals.len() as u16));
                        extend_ops(&mut ops, &values);
                        proof {
                            assert(ops@ =~= seq![
                                OpCode::Tuple(values@.len() as u16, vals@.len() as u16),
                            ] + values@);
                        }
                        Ok((ops, sub.1))
                    },
                }
            },
        }
    }
}

} // verus!
