use vstd::prelude::*;
use crate::compile::{State, NamedValue, emit_m, jump_m, new_block_m, close_m, lookup};
use crate::ir::{BlockM, FunctionM, Instr, Terminator, ValueId, function_refs_ok, block_ok, instr_ok, terminator_ok, value_ok};

verus! {

// What lowering keeps true of the references in the code it has emitted so far.

/// Block `b` holds code: it is the current block, or a terminated one.
pub open spec fn filled(s: State, b: int) -> bool {
    0 <= b < s.blocks.len() && (b == s.current || s.blocks[b].terminator is Some)
}

/// The instructions of block `b` so far.
pub open spec fn contents(s: State, b: int) -> Seq<Instr> {
    if b == s.current {
        s.instrs
    } else {
        s.blocks[b].instrs
    }
}

/// `id` names a value-defining instruction that comes before instruction `index` of block
/// `block`.
pub open spec fn defined(s: State, block: int, index: int, id: ValueId) -> bool {
    let b = id.block as int;
    let i = id.index as int;
    &&& (b < block || (b == block && i < index))
    &&& filled(s, b)
    &&& i < contents(s, b).len()
    &&& !(contents(s, b)[i] is Store)
}

/// `id` names a value that the next instruction of the current block may use.
pub open spec fn live(s: State, id: ValueId) -> bool {
    defined(s, s.current as int, s.instrs.len() as int, id)
}

pub open spec fn instr_good(s: State, globals: nat, block: int, index: int, i: Instr) -> bool {
    match i {
        Instr::Int(_) => true,
        Instr::LoadGlobal(g) => g < globals,
        Instr::Load(slot) => slot < s.slots.len(),
        Instr::Store { slot, value } => slot < s.slots.len() && defined(s, block, index, value),
        Instr::Arith(_, a, b) => defined(s, block, index, a) && defined(s, block, index, b),
    }
}

pub open spec fn name_good(v: NamedValue, slots: nat, globals: nat) -> bool {
    match v {
        NamedValue::Constant { global, .. } => global < globals,
        NamedValue::Variable { slot, .. } => slot < slots,
    }
}

/// The code of `s` refers only to globals below `globals`, to its own slots, and to values
/// defined before their use; its closed blocks end well; the bindings refer to existing
/// slots and globals; a block that is neither current nor closed is empty.
pub open spec fn good(s: State, globals: nat) -> bool {
    &&& s.current < s.blocks.len()
    &&& s.blocks[s.current as int].terminator is None
    &&& forall|b: int|
        0 <= b < s.blocks.len() && b != s.current && (#[trigger] s.blocks[b]).terminator is None
            ==> s.blocks[b].instrs.len() == 0
    &&& forall|b: int, i: int|
        filled(s, b) && 0 <= i < contents(s, b).len() ==> instr_good(
            s,
            globals,
            b,
            i,
            #[trigger] contents(s, b)[i],
        )
    &&& forall|b: int|
        0 <= b < s.blocks.len() && (#[trigger] s.blocks[b]).terminator is Some ==> match s.blocks[b].terminator->0 {
            Terminator::Jump(t) => t < s.blocks.len(),
            Terminator::Return(v) => defined(s, b, s.blocks[b].instrs.len() as int, v),
        }
    &&& forall|k: int| 0 <= k < s.names.len() ==> name_good(#[trigger] s.names[k].1, s.slots.len(), globals)
}

/// `t` extends `s`: no block, slot or instruction is lost, and closed blocks stay as they are.
pub open spec fn grows(s: State, t: State) -> bool {
    &&& s.blocks.len() <= t.blocks.len()
    &&& s.slots.len() <= t.slots.len()
    &&& forall|b: int|
        #[trigger] filled(s, b) ==> filled(t, b) && contents(s, b).is_prefix_of(contents(t, b)) && (
        s.blocks[b].terminator is Some ==> t.blocks[b] == s.blocks[b])
}

pub proof fn lemma_grows_refl(s: State)
    ensures
        grows(s, s),
{
    assert forall|b: int| #[trigger] filled(s, b) implies contents(s, b).is_prefix_of(contents(s, b)) by {
        assert(contents(s, b).subrange(0, contents(s, b).len() as int) =~= contents(s, b));
    }
}

pub proof fn lemma_grows_trans(s: State, t: State, u: State)
    requires
        grows(s, t),
        grows(t, u),
    ensures
        grows(s, u),
{
    assert forall|b: int| #[trigger] filled(s, b) implies filled(u, b) && contents(s, b).is_prefix_of(
        contents(u, b),
    ) && (s.blocks[b].terminator is Some ==> u.blocks[b] == s.blocks[b]) by {
        assert(filled(t, b));
        let x = contents(s, b);
        let y = contents(t, b);
        let z = contents(u, b);
        assert(z.subrange(0, x.len() as int) =~= y.subrange(0, x.len() as int));
    }
}

pub proof fn lemma_defined_grows(s: State, t: State, block: int, index: int, id: ValueId)
    requires
        grows(s, t),
        defined(s, block, index, id),
    ensures
        defined(t, block, index, id),
{
    let b = id.block as int;
    assert(filled(s, b));
    assert(contents(t, b)[id.index as int] == contents(s, b)[id.index as int]) by {
        assert(contents(t, b).subrange(0, contents(s, b).len() as int)[id.index as int]
            == contents(t, b)[id.index as int]);
    }
}

pub proof fn lemma_live_grows(s: State, t: State, id: ValueId)
    requires
        grows(s, t),
        t.current >= s.current,
        s.current < s.blocks.len(),
        live(s, id),
    ensures
        live(t, id),
{
    let b = id.block as int;
    assert(filled(s, s.current as int));
    assert(filled(s, b));
    assert(contents(t, b)[id.index as int] == contents(s, b)[id.index as int]) by {
        assert(contents(t, b).subrange(0, contents(s, b).len() as int)[id.index as int]
            == contents(t, b)[id.index as int]);
    }
    if t.current == s.current {
        assert(contents(s, s.current as int).len() <= contents(t, s.current as int).len());
    }
}

/// Code that was good stays good as the state grows, with the same bindings.
pub proof fn lemma_good_code_grows(s: State, t: State, globals: nat)
    requires
        good(s, globals),
        grows(s, t),
    ensures
        forall|b: int, i: int|
            filled(s, b) && 0 <= i < contents(s, b).len() ==> instr_good(
                t,
                globals,
                b,
                i,
                #[trigger] contents(s, b)[i],
            ),
{
    assert forall|b: int, i: int|
        filled(s, b) && 0 <= i < contents(s, b).len() implies instr_good(
        t,
        globals,
        b,
        i,
        #[trigger] contents(s, b)[i],
    ) by {
        let x = contents(s, b)[i];
        assert(instr_good(s, globals, b, i, x));
        match x {
            Instr::Store { slot, value } => {
                lemma_defined_grows(s, t, b, i, value);
            },
            Instr::Arith(_, p, q) => {
                lemma_defined_grows(s, t, b, i, p);
                lemma_defined_grows(s, t, b, i, q);
            },
            _ => {},
        }
    }
}

/// Emitting an instruction whose references are live keeps the code good; a value-defining
/// instruction is live afterwards.
pub proof fn lemma_emit_good(s: State, i: Instr, globals: nat)
    requires
        s.current < s.blocks.len(),
        s.instrs.len() <= usize::MAX,
    ensures
        grows(s, emit_m(s, i).1),
        emit_m(s, i).1.current == s.current,
        !(i is Store) ==> live(emit_m(s, i).1, emit_m(s, i).0),
        good(s, globals) && instr_good(s, globals, s.current as int, s.instrs.len() as int, i)
            ==> good(emit_m(s, i).1, globals),
{
    let t = emit_m(s, i).1;
    assert forall|b: int| #[trigger] filled(s, b) implies filled(t, b) && contents(s, b).is_prefix_of(
        contents(t, b),
    ) && (s.blocks[b].terminator is Some ==> t.blocks[b] == s.blocks[b]) by {
        if b == s.current {
            assert(t.instrs.subrange(0, s.instrs.len() as int) =~= s.instrs);
        } else {
            assert(contents(s, b).subrange(0, contents(s, b).len() as int) =~= contents(s, b));
        }
    }
    assert(filled(t, s.current as int));
    assert(contents(t, s.current as int)[s.instrs.len() as int] == i);
    if good(s, globals) && instr_good(s, globals, s.current as int, s.instrs.len() as int, i) {
        lemma_good_code_grows(s, t, globals);
        assert forall|b: int, k: int| filled(t, b) && 0 <= k < contents(t, b).len() implies instr_good(
            t,
            globals,
            b,
            k,
            #[trigger] contents(t, b)[k],
        ) by {
            assert(filled(s, b));
            if b == s.current && k == s.instrs.len() {
                match i {
                    Instr::Store { slot, value } => {
                        lemma_defined_grows(s, t, b, k, value);
                    },
                    Instr::Arith(_, p, q) => {
                        lemma_defined_grows(s, t, b, k, p);
                        lemma_defined_grows(s, t, b, k, q);
                    },
                    _ => {},
                }
            } else {
                assert(contents(t, b)[k] == contents(s, b)[k]);
            }
        }
        assert forall|b: int|
            0 <= b < t.blocks.len() && (#[trigger] t.blocks[b]).terminator is Some implies match t.blocks[b].terminator->0 {
                Terminator::Jump(x) => x < t.blocks.len(),
                Terminator::Return(v) => defined(t, b, t.blocks[b].instrs.len() as int, v),
            } by {
            assert(filled(s, b));
            if let Terminator::Return(v) = t.blocks[b].terminator->0 {
                lemma_defined_grows(s, t, b, s.blocks[b].instrs.len() as int, v);
            }
        }
    }
}

/// A new block keeps the code good.
pub proof fn lemma_new_block_good(s: State, globals: nat)
    requires
        s.current < s.blocks.len(),
    ensures
        grows(s, new_block_m(s)),
        new_block_m(s).current == s.current,
        forall|id: ValueId| live(s, id) ==> live(new_block_m(s), id),
        good(s, globals) ==> good(new_block_m(s), globals),
{
    let t = new_block_m(s);
    assert forall|b: int| #[trigger] filled(s, b) implies filled(t, b) && contents(s, b).is_prefix_of(
        contents(t, b),
    ) && (s.blocks[b].terminator is Some ==> t.blocks[b] == s.blocks[b]) by {
        assert(t.blocks[b] == s.blocks[b]);
        assert(contents(s, b).subrange(0, contents(s, b).len() as int) =~= contents(s, b));
    }
    assert forall|id: ValueId| live(s, id) implies live(t, id) by {
        lemma_live_grows(s, t, id);
    }
    if good(s, globals) {
        lemma_good_code_grows(s, t, globals);
        assert forall|b: int, k: int| filled(t, b) && 0 <= k < contents(t, b).len() implies instr_good(
            t,
            globals,
            b,
            k,
            #[trigger] contents(t, b)[k],
        ) by {
            assert(b < s.blocks.len());
            assert(filled(s, b));
            assert(contents(t, b) == contents(s, b));
        }
        assert forall|b: int|
            0 <= b < t.blocks.len() && (#[trigger] t.blocks[b]).terminator is Some implies match t.blocks[b].terminator->0 {
                Terminator::Jump(x) => x < t.blocks.len(),
                Terminator::Return(v) => defined(t, b, t.blocks[b].instrs.len() as int, v),
            } by {
            assert(b < s.blocks.len());
            assert(filled(s, b));
            if let Terminator::Return(v) = t.blocks[b].terminator->0 {
                lemma_defined_grows(s, t, b, s.blocks[b].instrs.len() as int, v);
            }
        }
        assert forall|b: int|
            0 <= b < t.blocks.len() && b != t.current && (#[trigger] t.blocks[b]).terminator is None
                implies t.blocks[b].instrs.len() == 0 by {
            if b < s.blocks.len() {
                assert(t.blocks[b] == s.blocks[b]);
            }
        }
    }
}

/// Jumping to a block that is open and empty keeps the code good, when the target exists.
pub proof fn lemma_jump_good(s: State, target: usize, next: usize, globals: nat)
    requires
        s.current < s.blocks.len(),
        s.blocks[s.current as int].terminator is None,
        next < s.blocks.len(),
        next != s.current,
        s.blocks[next as int].terminator is None,
    ensures
        grows(s, jump_m(s, target, next)),
        good(s, globals) && target < s.blocks.len() ==> good(jump_m(s, target, next), globals),
{
    let t = jump_m(s, target, next);
    let c = s.current as int;
    assert(t.blocks[c] == BlockM { instrs: s.instrs, terminator: Some(Terminator::Jump(target)) });
    assert forall|b: int| #[trigger] filled(s, b) implies filled(t, b) && contents(s, b).is_prefix_of(
        contents(t, b),
    ) && (s.blocks[b].terminator is Some ==> t.blocks[b] == s.blocks[b]) by {
        assert(b != next);
        assert(contents(t, b) == contents(s, b));
        assert(contents(s, b).subrange(0, contents(s, b).len() as int) =~= contents(s, b));
    }
    if good(s, globals) && target < s.blocks.len() {
        lemma_good_code_grows(s, t, globals);
        assert forall|b: int, k: int| filled(t, b) && 0 <= k < contents(t, b).len() implies instr_good(
            t,
            globals,
            b,
            k,
            #[trigger] contents(t, b)[k],
        ) by {
            if b == next {
                assert(contents(t, b).len() == 0);
            } else {
                assert(filled(s, b));
                assert(contents(t, b) == contents(s, b));
            }
        }
        assert forall|b: int|
            0 <= b < t.blocks.len() && (#[trigger] t.blocks[b]).terminator is Some implies match t.blocks[b].terminator->0 {
                Terminator::Jump(x) => x < t.blocks.len(),
                Terminator::Return(v) => defined(t, b, t.blocks[b].instrs.len() as int, v),
            } by {
            if b != c {
                assert(filled(s, b));
                if let Terminator::Return(v) = t.blocks[b].terminator->0 {
                    lemma_defined_grows(s, t, b, s.blocks[b].instrs.len() as int, v);
                }
            }
        }
        assert forall|b: int|
            0 <= b < t.blocks.len() && b != t.current && (#[trigger] t.blocks[b]).terminator is None
                implies t.blocks[b].instrs.len() == 0 by {
            assert(b != c);
            assert(t.blocks[b] == s.blocks[b]);
        }
    }
}

/// Closing the current block with a return of a live value makes a good function of it.
pub proof fn lemma_return_good(s: State, ret: ValueId, globals: nat, name: Seq<char>)
    requires
        good(s, globals),
        live(s, ret),
        forall|b: int| 0 <= b < s.blocks.len() && b != s.current ==> (#[trigger] s.blocks[b]).terminator is Some,
    ensures
        function_refs_ok(
            FunctionM {
                name,
                slots: close_m(s, Terminator::Return(ret)).slots,
                blocks: close_m(s, Terminator::Return(ret)).blocks,
            },
            globals,
        ),
{
    let t = close_m(s, Terminator::Return(ret));
    let f = FunctionM { name, slots: t.slots, blocks: t.blocks };
    assert forall|b: int| 0 <= b < f.blocks.len() implies #[trigger] contents(s, b) == f.blocks[b].instrs
        && filled(s, b) by {
    }
    assert forall|b: int, id: ValueId, k: int|
        0 <= b < f.blocks.len() && defined(s, b, k, id) implies value_ok(f, b, k, id) by {
        assert(contents(s, id.block as int) == f.blocks[id.block as int].instrs);
    }
    assert forall|b: int| 0 <= b < f.blocks.len() implies #[trigger] block_ok(f, globals, b) by {
        assert(filled(s, b));
        assert forall|i: int| 0 <= i < f.blocks[b].instrs.len() implies instr_ok(
            f,
            globals,
            b,
            i,
            #[trigger] f.blocks[b].instrs[i],
        ) by {
            assert(contents(s, b)[i] == f.blocks[b].instrs[i]);
            assert(instr_good(s, globals, b, i, contents(s, b)[i]));
        }
        if b == s.current {
            assert(terminator_ok(f, b, f.blocks[b].terminator));
        } else {
            assert(t.blocks[b] == s.blocks[b]);
        }
    }
}

/// Two states with the same code, slots and bindings.
pub proof fn lemma_same_code(s: State, t: State)
    requires
        t.blocks == s.blocks,
        t.current == s.current,
        t.instrs == s.instrs,
        t.slots == s.slots,
        t.names == s.names,
    ensures
        grows(s, t),
        forall|g: nat| good(s, g) ==> #[trigger] good(t, g),
        forall|id: ValueId| live(s, id) ==> #[trigger] live(t, id),
{
    assert forall|b: int| #[trigger] filled(s, b) implies filled(t, b) && contents(s, b).is_prefix_of(
        contents(t, b),
    ) && (s.blocks[b].terminator is Some ==> t.blocks[b] == s.blocks[b]) by {
        assert(contents(s, b).subrange(0, contents(s, b).len() as int) =~= contents(s, b));
    }
    assert forall|g: nat| good(s, g) implies #[trigger] good(t, g) by {
        lemma_good_frame(s, t, g);
    }
}

/// More slots, or other bindings, with the same code.
pub proof fn lemma_grows_frame(s: State, t: State)
    requires
        t.blocks == s.blocks,
        t.current == s.current,
        t.instrs == s.instrs,
        s.slots.len() <= t.slots.len(),
    ensures
        grows(s, t),
{
    assert forall|b: int| #[trigger] filled(s, b) implies filled(t, b) && contents(s, b).is_prefix_of(
        contents(t, b),
    ) && (s.blocks[b].terminator is Some ==> t.blocks[b] == s.blocks[b]) by {
        assert(contents(s, b).subrange(0, contents(s, b).len() as int) =~= contents(s, b));
    }
}

/// Two steps that each extend the code and keep it good make one.
pub proof fn lemma_step(s: State, t: State, u: State)
    requires
        grows(s, t),
        grows(t, u),
        forall|g: nat| good(s, g) ==> #[trigger] good(t, g),
        forall|g: nat| good(t, g) ==> #[trigger] good(u, g),
    ensures
        grows(s, u),
        forall|g: nat| good(s, g) ==> #[trigger] good(u, g),
{
    lemma_grows_trans(s, t, u);
    assert forall|g: nat| good(s, g) implies #[trigger] good(u, g) by {
        assert(good(t, g));
    }
}

/// A binding found in good bindings is good.
pub proof fn lemma_lookup_good(names: Seq<(Seq<char>, NamedValue)>, n: Seq<char>, slots: nat, globals: nat)
    requires
        forall|k: int| 0 <= k < names.len() ==> name_good(#[trigger] names[k].1, slots, globals),
    ensures
        lookup(names, n) matches Some(v) ==> name_good(v, slots, globals),
    decreases names.len(),
{
    if names.len() > 0 && names.last().0 != n {
        assert forall|k: int| 0 <= k < names.drop_last().len() implies name_good(
            #[trigger] names.drop_last()[k].1,
            slots,
            globals,
        ) by {
            assert(names.drop_last()[k] == names[k]);
        }
        lemma_lookup_good(names.drop_last(), n, slots, globals);
    }
}

/// Adding slots and good bindings, with the code as it is, keeps the state good.
pub proof fn lemma_good_frame(s: State, t: State, globals: nat)
    requires
        good(s, globals),
        t.blocks == s.blocks,
        t.current == s.current,
        t.instrs == s.instrs,
        s.slots.len() <= t.slots.len(),
        s.names.is_prefix_of(t.names),
        forall|k: int| s.names.len() <= k < t.names.len() ==> name_good(#[trigger] t.names[k].1, t.slots.len(), globals),
    ensures
        good(t, globals),
        grows(s, t),
{
    assert forall|b: int| #[trigger] filled(s, b) implies filled(t, b) && contents(s, b).is_prefix_of(
        contents(t, b),
    ) && (s.blocks[b].terminator is Some ==> t.blocks[b] == s.blocks[b]) by {
        assert(contents(s, b).subrange(0, contents(s, b).len() as int) =~= contents(s, b));
    }
    lemma_good_code_grows(s, t, globals);
    assert forall|b: int, k: int| filled(t, b) && 0 <= k < contents(t, b).len() implies instr_good(
        t,
        globals,
        b,
        k,
        #[trigger] contents(t, b)[k],
    ) by {
        assert(filled(s, b));
    }
    assert forall|b: int|
        0 <= b < t.blocks.len() && (#[trigger] t.blocks[b]).terminator is Some implies match t.blocks[b].terminator->0 {
            Terminator::Jump(x) => x < t.blocks.len(),
            Terminator::Return(v) => defined(t, b, t.blocks[b].instrs.len() as int, v),
        } by {
        assert(filled(s, b));
        if let Terminator::Return(v) = t.blocks[b].terminator->0 {
            lemma_defined_grows(s, t, b, s.blocks[b].instrs.len() as int, v);
        }
    }
    assert forall|k: int| 0 <= k < t.names.len() implies name_good(#[trigger] t.names[k].1, t.slots.len(), globals) by {
        if k < s.names.len() {
            assert(t.names[k] == t.names.subrange(0, s.names.len() as int)[k]);
            assert(name_good(s.names[k].1, s.slots.len(), globals));
        }
    }
}

/// A function with good references keeps them when there are more globals.
pub proof fn lemma_function_refs_more_globals(f: FunctionM, a: nat, b: nat)
    requires
        function_refs_ok(f, a),
        a <= b,
    ensures
        function_refs_ok(f, b),
{
    assert forall|k: int| 0 <= k < f.blocks.len() implies #[trigger] block_ok(f, b, k) by {
        assert(block_ok(f, a, k));
        assert forall|i: int| 0 <= i < f.blocks[k].instrs.len() implies instr_ok(
            f,
            b,
            k,
            i,
            #[trigger] f.blocks[k].instrs[i],
        ) by {
            assert(instr_ok(f, a, k, i, f.blocks[k].instrs[i]));
        }
    }
}

} // verus!
