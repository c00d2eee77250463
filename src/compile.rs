use vstd::prelude::*;
use crate::ast::{
    Block, BinOp, Def, Definition, Expr, Expression, Function, Module, Op, Statement, Stmt,
    VariableAssignment, VariableDefinition, bindings_model, stmt_model, stmts_model,
};
use crate::ast::{Binding, Unit};
use crate::references::{
    good, grows, instr_good, lemma_emit_good, lemma_function_refs_more_globals, lemma_good_frame,
    lemma_grows_refl, lemma_grows_trans, lemma_jump_good, lemma_live_grows, lemma_lookup_good,
    lemma_new_block_good, lemma_return_good, lemma_grows_frame, lemma_same_code, lemma_step, live, name_good,
};
use crate::ir::{
    ArithOp, BlockM, FunctionM, Instr, IrBlock, IrFunction, IrGlobal, IrModule, ModuleM,
    Terminator, ValueId, function_refs_ok, function_wf, module_wf, refs_ok, target_ok,
};

verus! {

/// Why a module cannot be lowered.
#[derive(Debug, PartialEq, Eq)]
pub enum CompileError {
    NameNotFound(String),
    ReassignedImmutable(String),
    OperandHasNoValue,
    LoopControlOutsideLoop,
    /// The function takes parameters, which are not lowered.
    UnsupportedParameters(String),
    /// A constant's initializer is not computable when the module is lowered: it is not built
    /// from literals, earlier constants and arithmetic, or it divides by zero.
    InvalidConstant,
}

pub enum CErr {
    NameNotFound(Seq<char>),
    ReassignedImmutable(Seq<char>),
    OperandHasNoValue,
    LoopControlOutsideLoop,
    UnsupportedParameters(Seq<char>),
    InvalidConstant,
}

impl View for CompileError {
    type V = CErr;

    open spec fn view(&self) -> CErr {
        match self {
            CompileError::NameNotFound(n) => CErr::NameNotFound(n@),
            CompileError::ReassignedImmutable(n) => CErr::ReassignedImmutable(n@),
            CompileError::OperandHasNoValue => CErr::OperandHasNoValue,
            CompileError::LoopControlOutsideLoop => CErr::LoopControlOutsideLoop,
            CompileError::UnsupportedParameters(n) => CErr::UnsupportedParameters(n@),
            CompileError::InvalidConstant => CErr::InvalidConstant,
        }
    }
}

/// What a name stands for: a constant, with its global and value, or a variable, with
/// whether it is mutable and its stack slot.
#[derive(Clone, Copy)]
pub enum NamedValue {
    Constant { global: usize, value: u64 },
    Variable { is_mutable: bool, slot: usize },
}

/// The binding of `name` that was made last.
pub open spec fn lookup(names: Seq<(Seq<char>, NamedValue)>, name: Seq<char>) -> Option<NamedValue>
    decreases names.len(),
{
    if names.len() == 0 {
        None
    } else if names.last().0 == name {
        Some(names.last().1)
    } else {
        lookup(names.drop_last(), name)
    }
}

pub open spec fn word() -> int {
    0x1_0000_0000_0000_0000
}

pub open spec fn is_negative(v: u64) -> bool {
    v >= 0x8000_0000_0000_0000
}

/// The absolute value of `v` read in two's complement.
pub open spec fn magnitude(v: u64) -> int {
    if is_negative(v) {
        word() - v
    } else {
        v as int
    }
}

pub open spec fn negate(v: int) -> u64 {
    ((word() - v) % word()) as u64
}

/// The machine operation of `op` on two 64-bit two's complement integers; division rounds
/// toward zero and is undefined by zero.
pub open spec fn apply(op: Op, a: u64, b: u64) -> Option<u64> {
    match op {
        Op::Add => Some(((a + b) % word()) as u64),
        Op::Sub => Some(((a + word() - b) % word()) as u64),
        Op::Mul => Some(((a * b) % word()) as u64),
        Op::Div => if b == 0 {
            None
        } else {
            let q = magnitude(a) / magnitude(b);
            Some(
                if is_negative(a) != is_negative(b) {
                    negate(q)
                } else {
                    (q % word()) as u64
                },
            )
        },
    }
}

/// The value of a constant's initializer, computed when the module is lowered.
pub open spec fn fold(e: Expr, names: Seq<(Seq<char>, NamedValue)>) -> Result<u64, CErr>
    decreases e,
{
    match e {
        Expr::Int(v) => Ok(v),
        Expr::Var(n) => match lookup(names, n) {
            Some(NamedValue::Constant { value, .. }) => Ok(value),
            Some(NamedValue::Variable { .. }) => Err(CErr::InvalidConstant),
            None => Err(CErr::NameNotFound(n)),
        },
        Expr::Bin(op, l, r) => match fold(*l, names) {
            Err(x) => Err(x),
            Ok(a) => match fold(*r, names) {
                Err(x) => Err(x),
                Ok(b) => match apply(op, a, b) {
                    Some(v) => Ok(v),
                    None => Err(CErr::InvalidConstant),
                },
            },
        },
        Expr::Block(ss, last) => match last {
            Some(x) => if ss.len() == 0 {
                fold(*x, names)
            } else {
                Err(CErr::InvalidConstant)
            },
            None => Err(CErr::InvalidConstant),
        },
        _ => Err(CErr::InvalidConstant),
    }
}

/// The state of lowering a function: its blocks, the block being filled and the instructions
/// given to it so far, its stack slots, the bindings in scope, and the (header, exit) blocks
/// of the enclosing loops, innermost last.
pub struct State {
    pub blocks: Seq<BlockM>,
    pub current: usize,
    pub instrs: Seq<Instr>,
    pub slots: Seq<Seq<char>>,
    pub names: Seq<(Seq<char>, NamedValue)>,
    pub loops: Seq<(usize, usize)>,
}

/// Appends `i` to the current block; it is the instruction with the id returned.
pub open spec fn emit_m(s: State, i: Instr) -> (ValueId, State) {
    (
        ValueId { block: s.current, index: s.instrs.len() as usize },
        State { instrs: s.instrs.push(i), ..s },
    )
}

/// Adds an empty, open block at the end.
pub open spec fn new_block_m(s: State) -> State {
    State { blocks: s.blocks.push(BlockM { instrs: Seq::empty(), terminator: None }), ..s }
}

/// Ends the current block with `t`, unless it already has a terminator.
pub open spec fn close_m(s: State, t: Terminator) -> State {
    if s.blocks[s.current as int].terminator is None {
        State {
            blocks: s.blocks.update(s.current as int, BlockM { instrs: s.instrs, terminator: Some(t) }),
            instrs: Seq::empty(),
            ..s
        }
    } else {
        s
    }
}

/// Ends the current block with a jump to `target`, and goes on in block `next`.
pub open spec fn jump_m(s: State, target: usize, next: usize) -> State {
    State { current: next, instrs: Seq::empty(), ..close_m(s, Terminator::Jump(target)) }
}

pub open spec fn arith_of(op: Op) -> ArithOp {
    match op {
        Op::Add => ArithOp::Add,
        Op::Sub => ArithOp::Sub,
        Op::Mul => ArithOp::Mul,
        Op::Div => ArithOp::SignedDiv,
    }
}

/// Lowering an expression from state `s`: the value it yields, if any, and the state after
/// the code that computes it; or the first error it meets.
/// - a literal is an `Int` instruction; a constant is loaded from its global and a variable
///   from its slot;
/// - an assignment to a mutable variable lowers its value and stores it, and yields it;
/// - an operation lowers its left then its right operand, which must yield values, then
///   applies the operation;
/// - a block lowers its statements, then its last expression if it has one;
/// - a loop adds a header block `h` and an exit block `h + 1`, jumps to the header and lowers
///   the body there with `(h, h + 1)` as innermost loop, jumps back to the header from where the
///   body ended, and goes on in the exit block; it yields no value;
/// - `break` jumps to the innermost exit and `continue` to the innermost header; what follows
///   goes to a new block.
pub open spec fn gen(e: Expr, s: State) -> Result<(Option<ValueId>, State), CErr>
    decreases e,
{
    match e {
        Expr::Int(v) => {
            let (id, t) = emit_m(s, Instr::Int(v));
            Ok((Some(id), t))
        },
        Expr::Var(n) => match lookup(s.names, n) {
            Some(NamedValue::Constant { global, .. }) => {
                let (id, t) = emit_m(s, Instr::LoadGlobal(global));
                Ok((Some(id), t))
            },
            Some(NamedValue::Variable { slot, .. }) => {
                let (id, t) = emit_m(s, Instr::Load(slot));
                Ok((Some(id), t))
            },
            None => Err(CErr::NameNotFound(n)),
        },
        Expr::Assign(n, v) => match lookup(s.names, n) {
            None => Err(CErr::NameNotFound(n)),
            Some(NamedValue::Variable { is_mutable: true, slot }) => match gen(*v, s) {
                Err(x) => Err(x),
                Ok((r, s1)) => match r {
                    Some(x) => Ok((Some(x), emit_m(s1, Instr::Store { slot, value: x }).1)),
                    None => Ok((None, s1)),
                },
            },
            Some(_) => Err(CErr::ReassignedImmutable(n)),
        },
        Expr::Bin(op, l, r) => match gen(*l, s) {
            Err(x) => Err(x),
            Ok((None, _)) => Err(CErr::OperandHasNoValue),
            Ok((Some(a), s1)) => match gen(*r, s1) {
                Err(x) => Err(x),
                Ok((None, _)) => Err(CErr::OperandHasNoValue),
                Ok((Some(b), s2)) => {
                    let (id, t) = emit_m(s2, Instr::Arith(arith_of(op), a, b));
                    Ok((Some(id), t))
                },
            },
        },
        Expr::Block(ss, last) => match gen_stmts(ss, s) {
            Err(x) => Err(x),
            Ok(s1) => match last {
                None => Ok((None, s1)),
                Some(x) => gen(*x, s1),
            },
        },
        Expr::Loop(body) => {
            let h = s.blocks.len() as usize;
            let x = (s.blocks.len() + 1) as usize;
            let s1 = jump_m(new_block_m(new_block_m(s)), h, h);
            match gen(*body, State { loops: s1.loops.push((h, x)), ..s1 }) {
                Err(err) => Err(err),
                Ok((_, s2)) => Ok((None, jump_m(State { loops: s2.loops.drop_last(), ..s2 }, h, x))),
            }
        },
        Expr::Break => loop_flow(s, true),
        Expr::Continue => loop_flow(s, false),
    }
}

/// `break` (or else `continue`) from state `s`.
pub open spec fn loop_flow(s: State, is_break: bool) -> Result<(Option<ValueId>, State), CErr> {
    if s.loops.len() == 0 {
        Err(CErr::LoopControlOutsideLoop)
    } else {
        let target = if is_break {
            s.loops.last().1
        } else {
            s.loops.last().0
        };
        Ok((None, jump_m(new_block_m(s), target, s.blocks.len() as usize)))
    }
}

/// Lowering a statement. `let` takes a new stack slot, stores the initial value in it if
/// there is one, and then binds the name to it.
pub open spec fn gen_stmt(st: Stmt, s: State) -> Result<State, CErr>
    decreases st,
{
    match st {
        Stmt::Expr(e) => match gen(e, s) {
            Err(x) => Err(x),
            Ok((_, s1)) => Ok(s1),
        },
        Stmt::Let(b, init) => {
            let slot = s.slots.len() as usize;
            let s0 = State { slots: s.slots.push(b.name), ..s };
            let stored = match init {
                None => Ok(s0),
                Some(x) => match gen(x, s0) {
                    Err(err) => Err(err),
                    Ok((None, s1)) => Ok(s1),
                    Ok((Some(v), s1)) => Ok(emit_m(s1, Instr::Store { slot, value: v }).1),
                },
            };
            match stored {
                Err(err) => Err(err),
                Ok(s2) => Ok(
                    State {
                        names: s2.names.push(
                            (b.name, NamedValue::Variable { is_mutable: b.mutable, slot }),
                        ),
                        ..s2
                    },
                ),
            }
        },
    }
}

pub open spec fn gen_stmts(ss: Seq<Stmt>, s: State) -> Result<State, CErr>
    decreases ss,
{
    if ss.len() == 0 {
        Ok(s)
    } else {
        match gen_stmt(ss[0], s) {
            Err(x) => Err(x),
            Ok(s1) => gen_stmts(ss.subrange(1, ss.len() as int), s1),
        }
    }
}

/// The state in which a function's body is lowered: one open entry block, and the bindings
/// `names`.
pub open spec fn entry_state(names: Seq<(Seq<char>, NamedValue)>) -> State {
    State {
        blocks: seq![BlockM { instrs: Seq::empty(), terminator: None }],
        current: 0,
        instrs: Seq::empty(),
        slots: Seq::empty(),
        names,
        loops: Seq::empty(),
    }
}

/// Lowering a function: its body, then a return of the body's value, or of 0 when the body
/// yields none. A function with parameters is refused.
pub open spec fn gen_function(
    name: Seq<char>,
    params: Seq<Binding>,
    body: Expr,
    names: Seq<(Seq<char>, NamedValue)>,
) -> Result<FunctionM, CErr> {
    if params.len() > 0 {
        Err(CErr::UnsupportedParameters(name))
    } else {
        match gen(body, entry_state(names)) {
            Err(x) => Err(x),
            Ok((v, s1)) => {
                let (ret, s2) = match v {
                    Some(x) => (x, s1),
                    None => emit_m(s1, Instr::Int(0)),
                };
                let s3 = close_m(s2, Terminator::Return(ret));
                Ok(FunctionM { name, slots: s3.slots, blocks: s3.blocks })
            },
        }
    }
}

/// Lowering the definitions `defs` after the constants `names`, the globals `globals` and
/// the functions `functions`: all the globals and functions, or the first error. A constant
/// becomes a global holding its value; a function sees the constants defined before it.
pub open spec fn gen_defs(
    defs: Seq<Def>,
    names: Seq<(Seq<char>, NamedValue)>,
    globals: Seq<(Seq<char>, u64)>,
    functions: Seq<FunctionM>,
) -> Result<(Seq<(Seq<char>, u64)>, Seq<FunctionM>), CErr>
    decreases defs.len(),
{
    if defs.len() == 0 {
        Ok((globals, functions))
    } else {
        match defs[0] {
            Def::Func(name, params, body) => match gen_function(name, params, body, names) {
                Err(x) => Err(x),
                Ok(f) => gen_defs(defs.drop_first(), names, globals, functions.push(f)),
            },
            Def::Const(b, value) => match fold(value, names) {
                Err(x) => Err(x),
                Ok(v) => gen_defs(
                    defs.drop_first(),
                    names.push(
                        (b.name, NamedValue::Constant { global: globals.len() as usize, value: v }),
                    ),
                    globals.push((b.name, v)),
                    functions,
                ),
            },
        }
    }
}

/// The lowered form of a module, or the first error in it.
pub open spec fn gen_module(u: Unit) -> Result<ModuleM, CErr> {
    match gen_defs(u.defs, Seq::empty(), Seq::empty(), Seq::empty()) {
        Err(x) => Err(x),
        Ok((globals, functions)) => Ok(ModuleM { name: u.name, globals, functions }),
    }
}

/// Assignment is refused to a constant or an immutable variable: it fails with
/// `ReassignedImmutable`, whatever the value assigned.
pub proof fn lemma_immutable_not_reassigned(name: Seq<char>, value: Expr, s: State)
    requires
        lookup(s.names, name) is Some,
        !(lookup(s.names, name) matches Some(NamedValue::Variable { is_mutable: true, .. })),
    ensures
        gen(Expr::Assign(name, Box::new(value)), s) == Err::<(Option<ValueId>, State), CErr>(
            CErr::ReassignedImmutable(name),
        ),
{
}

/// `break` and `continue` outside every loop fail with `LoopControlOutsideLoop`.
pub proof fn lemma_loop_control_outside_loop(s: State)
    requires
        s.loops.len() == 0,
    ensures
        gen(Expr::Break, s) == Err::<(Option<ValueId>, State), CErr>(CErr::LoopControlOutsideLoop),
        gen(Expr::Continue, s) == Err::<(Option<ValueId>, State), CErr>(
            CErr::LoopControlOutsideLoop,
        ),
{
}

/// `loop { break }` lowers: the open block jumps to a new header `h`, the header jumps to the
/// new exit `h + 1`, the block after the `break` jumps back to the header, and lowering goes on
/// in the still open exit block, with the loops as they were.
pub proof fn lemma_loop_break_lowers(s: State)
    requires
        s.current < s.blocks.len(),
        s.blocks[s.current as int].terminator is None,
        s.blocks.len() + 3 <= usize::MAX,
    ensures
        gen(Expr::Loop(Box::new(Expr::Block(Seq::empty(), Some(Box::new(Expr::Break))))), s)
            matches Ok((None, t)) && ({
            let h = s.blocks.len() as int;
            &&& t.blocks.len() == h + 3
            &&& t.blocks[s.current as int].terminator == Some(Terminator::Jump(h as usize))
            &&& t.blocks[h].terminator == Some(Terminator::Jump((h + 1) as usize))
            &&& t.blocks[h + 1].terminator is None
            &&& t.blocks[h + 2].terminator == Some(Terminator::Jump(h as usize))
            &&& t.current == h + 1
            &&& t.loops == s.loops
            &&& t.names == s.names
        }),
{
    let h = s.blocks.len() as usize;
    let x = (s.blocks.len() + 1) as usize;
    let s1 = jump_m(new_block_m(new_block_m(s)), h, h);
    let s1b = State { loops: s1.loops.push((h, x)), ..s1 };
    assert(gen_stmts(Seq::empty(), s1b) == Ok::<State, CErr>(s1b));
    assert(gen(Expr::Break, s1b) == loop_flow(s1b, true));
    let inner = gen(Expr::Block(Seq::empty(), Some(Box::new(Expr::Break))), s1b);
    assert(inner == loop_flow(s1b, true));
}

proof fn lemma_stmts_model(ss: Seq<Statement>)
    ensures
        stmts_model(ss).len() == ss.len(),
        forall|i: int| 0 <= i < ss.len() ==> #[trigger] stmts_model(ss)[i] == stmt_model(ss[i]),
    decreases ss.len(),
{
    if ss.len() > 0 {
        lemma_stmts_model(ss.drop_last());
    }
}

/// The integer operation of `op` on two 64-bit two's complement integers; `None` for a
/// division by zero.
pub fn apply_op(op: ArithOp, a: u64, b: u64) -> (r: Option<u64>)
    ensures
        r == apply(op_model(op), a, b),
{
    let w: u128 = 0x1_0000_0000_0000_0000;
    match op {
        ArithOp::Add => Some((((a as u128) + (b as u128)) % w) as u64),
        ArithOp::Sub => Some((((a as u128) + w - (b as u128)) % w) as u64),
        ArithOp::Mul => {
            assert((a as u128) * (b as u128) <= 0xffff_ffff_ffff_ffffu128 * 0xffff_ffff_ffff_ffffu128)
                by (nonlinear_arith);
            Some((((a as u128) * (b as u128)) % w) as u64)
        },
        ArithOp::SignedDiv => {
            if b == 0 {
                return None;
            }
            let ma: u128 = if a >= 0x8000_0000_0000_0000 {
                w - (a as u128)
            } else {
                a as u128
            };
            let mb: u128 = if b >= 0x8000_0000_0000_0000 {
                w - (b as u128)
            } else {
                b as u128
            };
            let q = ma / mb;
            assert(q <= ma) by (nonlinear_arith)
                requires
                    q == ma / mb,
                    mb >= 1,
            ;
            if (a >= 0x8000_0000_0000_0000) != (b >= 0x8000_0000_0000_0000) {
                Some(((w - q) % w) as u64)
            } else {
                Some((q % w) as u64)
            }
        },
    }
}

pub open spec fn op_model(op: ArithOp) -> Op {
    match op {
        ArithOp::Add => Op::Add,
        ArithOp::Sub => Op::Sub,
        ArithOp::Mul => Op::Mul,
        ArithOp::SignedDiv => Op::Div,
    }
}

struct Entry {
    name: String,
    value: NamedValue,
}

/// Lowers a module into the intermediate representation, one function at a time.
pub struct Compiler {
    names: Vec<Entry>,
    loops: Vec<(usize, usize)>,
    blocks: Vec<IrBlock>,
    current: usize,
    instrs: Vec<Instr>,
    slots: Vec<String>,
}

proof fn lemma_prefix_trans<A>(a: Seq<A>, b: Seq<A>, c: Seq<A>)
    requires
        a.is_prefix_of(b),
        b.is_prefix_of(c),
    ensures
        a.is_prefix_of(c),
{
    assert(c.subrange(0, a.len() as int) =~= b.subrange(0, a.len() as int));
}

impl Compiler {
    spec fn names_model(&self) -> Seq<(Seq<char>, NamedValue)> {
        self.names@.map_values(|e: Entry| (e.name@, e.value))
    }

    /// The state of lowering, in the model.
    spec fn state(&self) -> State {
        State {
            blocks: self.blocks@.map_values(|b: IrBlock| b@),
            current: self.current,
            instrs: self.instrs@,
            slots: self.slots@.map_values(|n: String| n@),
            names: self.names_model(),
            loops: self.loops@,
        }
    }

    /// The current block is open; a block that is neither current nor the exit of an
    /// enclosing loop is terminated; jumps land on blocks of the function.
    spec fn wf(&self) -> bool {
        let n = self.blocks@.len();
        &&& self.current < n
        &&& self.blocks@[self.current as int].terminator is None
        &&& forall|b: int|
            0 <= b < n && (#[trigger] self.blocks@[b]).terminator is Some ==> target_ok(
                self.blocks@[b].terminator->0,
                n as int,
            )
        &&& forall|b: int|
            0 <= b < n && b != self.current && (#[trigger] self.blocks@[b]).terminator is None
                ==> exists|i: int| 0 <= i < self.loops@.len() && (#[trigger] self.loops@[i]).1 == b
        &&& forall|i: int|
            0 <= i < self.loops@.len() ==> (#[trigger] self.loops@[i]).0 < n && self.loops@[i].1
                < n && self.loops@[i].1 != self.current && self.blocks@[self.loops@[i].1 as int].terminator is None
        &&& forall|i: int, j: int|
            0 <= i < j < self.loops@.len() ==> (#[trigger] self.loops@[i]).1 < (
            #[trigger] self.loops@[j]).1
    }

    pub fn new() -> (r: Compiler) {
        Compiler {
            names: Vec::new(),
            loops: Vec::new(),
            blocks: Vec::new(),
            current: 0,
            instrs: Vec::new(),
            slots: Vec::new(),
        }
    }

    fn emit(&mut self, instr: Instr) -> (r: ValueId)
        requires
            old(self).current < old(self).blocks@.len(),
        ensures
            (r, final(self).state()) == emit_m(old(self).state(), instr),
            grows(old(self).state(), final(self).state()),
            !(instr is Store) ==> live(final(self).state(), r),
            forall|g: nat|
                good(old(self).state(), g) && instr_good(
                    old(self).state(),
                    g,
                    old(self).current as int,
                    old(self).instrs@.len() as int,
                    instr,
                ) ==> #[trigger] good(final(self).state(), g),
            final(self).names == old(self).names,
            final(self).loops == old(self).loops,
            final(self).blocks == old(self).blocks,
            final(self).current == old(self).current,
    {
        let ghost s = self.state();
        let id = ValueId { block: self.current, index: self.instrs.len() };
        self.instrs.push(instr);
        proof {
            lemma_emit_good(s, instr, 0);
            assert forall|g: nat|
                good(s, g) && instr_good(s, g, s.current as int, s.instrs.len() as int, instr)
                    implies #[trigger] good(self.state(), g) by {
                lemma_emit_good(s, instr, g);
            }
        }
        id
    }

    fn new_block(&mut self) -> (r: usize)
        requires
            old(self).current < old(self).blocks@.len(),
        ensures
            r == old(self).blocks@.len(),
            final(self).state() == new_block_m(old(self).state()),
            grows(old(self).state(), final(self).state()),
            forall|g: nat| good(old(self).state(), g) ==> #[trigger] good(final(self).state(), g),
            final(self).blocks@ == old(self).blocks@.push(
                IrBlock { instrs: final(self).blocks@[r as int].instrs, terminator: None },
            ),
            final(self).names == old(self).names,
            final(self).loops == old(self).loops,
            final(self).current == old(self).current,
    {
        let ghost s = self.state();
        let id = self.blocks.len();
        let ghost before = self.blocks@;
        self.blocks.push(IrBlock { instrs: Vec::new(), terminator: None });
        assert(self.blocks@.map_values(|b: IrBlock| b@) =~= before.map_values(|b: IrBlock| b@).push(
            BlockM { instrs: Seq::empty(), terminator: None },
        ));
        proof {
            lemma_new_block_good(s, 0);
            assert forall|g: nat| good(s, g) implies #[trigger] good(self.state(), g) by {
                lemma_new_block_good(s, g);
            }
        }
        id
    }

    /// Ends the current block with `t`, unless it already has a terminator.
    fn close(&mut self, t: Terminator)
        requires
            old(self).current < old(self).blocks@.len(),
        ensures
            final(self).state() == close_m(old(self).state(), t),
            final(self).blocks@.len() == old(self).blocks@.len(),
            final(self).blocks@[old(self).current as int].terminator == (
            if old(self).blocks@[old(self).current as int].terminator is None {
                Some(t)
            } else {
                old(self).blocks@[old(self).current as int].terminator
            }),
            forall|b: int|
                0 <= b < old(self).blocks@.len() && b != old(self).current ==> (
                #[trigger] final(self).blocks@[b]) == old(self).blocks@[b],
            final(self).names == old(self).names,
            final(self).loops == old(self).loops,
            final(self).current == old(self).current,
    {
        if self.blocks[self.current].terminator.is_none() {
            let ghost before = self.blocks@;
            let mut instrs: Vec<Instr> = Vec::new();
            std::mem::swap(&mut instrs, &mut self.instrs);
            let ghost closed = instrs@;
            self.blocks.set(self.current, IrBlock { instrs, terminator: Some(t) });
            assert(self.blocks@.map_values(|b: IrBlock| b@) =~= before.map_values(|b: IrBlock| b@).update(
                self.current as int,
                BlockM { instrs: closed, terminator: Some(t) },
            ));
            assert(self.instrs@ =~= Seq::<Instr>::empty());
        }
    }

    /// Ends the current block with a jump to `target` and continues in block `next`.
    fn jump(&mut self, target: usize, next: usize)
        requires
            old(self).current < old(self).blocks@.len(),
            old(self).blocks@[old(self).current as int].terminator is None,
            target < old(self).blocks@.len(),
            next < old(self).blocks@.len(),
            next != old(self).current,
            old(self).blocks@[next as int].terminator is None,
        ensures
            final(self).state() == jump_m(old(self).state(), target, next),
            grows(old(self).state(), final(self).state()),
            forall|g: nat| good(old(self).state(), g) ==> #[trigger] good(final(self).state(), g),
            final(self).blocks@.len() == old(self).blocks@.len(),
            final(self).blocks@[old(self).current as int].terminator == Some(
                Terminator::Jump(target),
            ),
            forall|b: int|
                0 <= b < old(self).blocks@.len() && b != old(self).current ==> (
                #[trigger] final(self).blocks@[b]) == old(self).blocks@[b],
            final(self).names == old(self).names,
            final(self).loops == old(self).loops,
            final(self).current == next,
    {
        let ghost s = self.state();
        self.close(Terminator::Jump(target));
        self.current = next;
        self.instrs = Vec::new();
        assert(self.instrs@ =~= Seq::<Instr>::empty());
        proof {
            lemma_jump_good(s, target, next, 0);
            assert forall|g: nat| good(s, g) implies #[trigger] good(self.state(), g) by {
                lemma_jump_good(s, target, next, g);
            }
        }
    }

    /// The binding of `name` made last.
    fn lookup(&self, name: &String) -> (r: Option<NamedValue>)
        ensures
            r == lookup(self.names_model(), name@),
    {
        let ghost env = self.names_model();
        let mut i = self.names.len();
        assert(env.subrange(0, i as int) =~= env);
        while i > 0
            invariant
                i <= self.names@.len(),
                env == self.names_model(),
                lookup(env, name@) == lookup(env.subrange(0, i as int), name@),
            decreases i,
        {
            i = i - 1;
            assert(env.subrange(0, i + 1).drop_last() =~= env.subrange(0, i as int));
            if self.names[i].name.eq(name) {
                return Some(self.names[i].value);
            }
        }
        None
    }

    /// `after` extends the code of `before`, goes on at the same block or a later one, and
    /// keeps it good.
    spec fn extends(before: Compiler, after: Compiler) -> bool {
        &&& grows(before.state(), after.state())
        &&& after.current >= before.current
        &&& forall|g: nat| #[trigger] good(before.state(), g) ==> good(after.state(), g)
    }

    /// What lowering an expression does: from the state of `before`, the result `r` and the
    /// state of `after` are those that `gen` gives.
    spec fn lowers(before: Compiler, after: Compiler, e: Expr, r: Result<Option<ValueId>, CompileError>) -> bool {
        match gen(e, before.state()) {
            Ok((v, s1)) => r == Ok::<Option<ValueId>, CompileError>(v) && after.state() == s1
                && after.wf() && after.loops@ == before.loops@ && before.names@.is_prefix_of(
                after.names@,
            ) && Compiler::extends(before, after) && (v matches Some(id) ==> live(after.state(), id)),
            Err(x) => r matches Err(y) && y@ == x,
        }
    }

    fn compile_expression(&mut self, e: &Expression) -> (r: Result<Option<ValueId>, CompileError>)
        requires
            old(self).wf(),
        ensures
            Compiler::lowers(*old(self), *final(self), e@, r),
        decreases e, 0int,
    {
        match e {
            Expression::Integer(v) => Ok(Some(self.emit(Instr::Int(*v)))),
            Expression::Variable(name) => self.compile_variable_access(name),
            Expression::VariableAssignment(a) => self.compile_variable_assign(a),
            Expression::BinOp(op) => self.compile_binop(op),
            Expression::Block(b) => self.compile_block(b),
            Expression::Loop(body) => self.compile_loop(body),
            Expression::Break => self.compile_loop_flow(true),
            Expression::Continue => self.compile_loop_flow(false),
        }
    }

    /// A load of the global of a constant, or of the slot of a variable.
    fn compile_variable_access(&mut self, name: &String) -> (r: Result<Option<ValueId>, CompileError>)
        requires
            old(self).wf(),
        ensures
            Compiler::lowers(*old(self), *final(self), Expr::Var(name@), r),
    {
        let ghost s0 = self.state();
        let found = self.lookup(name);
        proof {
            assert forall|g: nat| good(s0, g) implies (found matches Some(v) ==> name_good(
                v,
                s0.slots.len(),
                g,
            )) by {
                lemma_lookup_good(s0.names, name@, s0.slots.len(), g);
            }
        }
        match found {
            Some(NamedValue::Constant { global, .. }) => Ok(Some(self.emit(Instr::LoadGlobal(global)))),
            Some(NamedValue::Variable { slot, .. }) => Ok(Some(self.emit(Instr::Load(slot)))),
            None => Err(CompileError::NameNotFound(name.clone())),
        }
    }

    /// Lowers the value and stores it in the variable's slot; the assignment yields it.
    fn compile_variable_assign(&mut self, a: &VariableAssignment) -> (r: Result<Option<ValueId>, CompileError>)
        requires
            old(self).wf(),
        ensures
            Compiler::lowers(*old(self), *final(self), Expression::VariableAssignment(*a)@, r),
        decreases a, 1int,
    {
        let ghost s0 = self.state();
        let found = self.lookup(&a.name);
        match found {
            Some(NamedValue::Variable { is_mutable: true, slot }) => {
                let value = match self.compile_expression(&a.value) {
                    Ok(v) => v,
                    Err(x) => {
                        return Err(x);
                    },
                };
                match value {
                    Some(v) => {
                        let ghost s1 = self.state();
                        proof {
                            assert forall|g: nat| good(s0, g) implies instr_good(
                                s1,
                                g,
                                s1.current as int,
                                s1.instrs.len() as int,
                                Instr::Store { slot, value: v },
                            ) by {
                                lemma_lookup_good(s0.names, a.name@, s0.slots.len(), g);
                            }
                        }
                        self.emit(Instr::Store { slot, value: v });
                        proof {
                            lemma_live_grows(s1, self.state(), v);
                            lemma_grows_trans(s0, s1, self.state());
                            assert forall|g: nat| good(s0, g) implies #[trigger] good(self.state(), g) by {
                                assert(good(s1, g));
                            }
                        }
                    },
                    None => {},
                }
                Ok(value)
            },
            Some(_) => Err(CompileError::ReassignedImmutable(a.name.clone())),
            None => Err(CompileError::NameNotFound(a.name.clone())),
        }
    }

    /// Lowers both operands, which must yield values, then the operation.
    fn compile_binop(&mut self, op: &BinOp) -> (r: Result<Option<ValueId>, CompileError>)
        requires
            old(self).wf(),
        ensures
            Compiler::lowers(*old(self), *final(self), Expression::BinOp(*op)@, r),
        decreases op, 1int,
    {
        let ghost names0 = self.names@;
        let (kind, lhs, rhs) = match op {
            BinOp::Add(l, r) => (ArithOp::Add, l, r),
            BinOp::Sub(l, r) => (ArithOp::Sub, l, r),
            BinOp::Mul(l, r) => (ArithOp::Mul, l, r),
            BinOp::Div(l, r) => (ArithOp::SignedDiv, l, r),
        };
        assert(Expression::BinOp(*op)@ == Expr::Bin(
            op_model(kind),
            Box::new((**lhs)@),
            Box::new((**rhs)@),
        ));
        assert(arith_of(op_model(kind)) == kind);
        let left = match self.compile_expression(lhs) {
            Ok(Some(v)) => v,
            Ok(None) => {
                return Err(CompileError::OperandHasNoValue);
            },
            Err(x) => {
                return Err(x);
            },
        };
        let ghost names1 = self.names@;
        let right = match self.compile_expression(rhs) {
            Ok(Some(v)) => v,
            Ok(None) => {
                return Err(CompileError::OperandHasNoValue);
            },
            Err(x) => {
                return Err(x);
            },
        };
        proof {
            lemma_prefix_trans(names0, names1, self.names@);
        }
        Ok(Some(self.emit(Instr::Arith(kind, left, right))))
    }

    /// Lowers `loop body`: a header block that the body runs in and jumps back to, and an
    /// exit block where `break` leads and lowering goes on.
    fn compile_loop(&mut self, body: &Expression) -> (r: Result<Option<ValueId>, CompileError>)
        requires
            old(self).wf(),
        ensures
            Compiler::lowers(*old(self), *final(self), Expr::Loop(Box::new(body@)), r),
        decreases body, 1int,
    {
        let ghost old_loops = self.loops@;
        let ghost s0 = self.state();
        let header = self.new_block();
        let ghost s1 = self.state();
        let exit = self.new_block();
        let ghost s2 = self.state();
        self.jump(header, header);
        let ghost s3 = self.state();
        self.loops.push((header, exit));
        proof {
            lemma_step(s0, s1, s2);
            lemma_step(s0, s2, s3);
            lemma_same_code(s3, self.state());
            lemma_step(s0, s3, self.state());
        }
        let ghost s4 = self.state();
        proof {
            let n = self.blocks@.len();
            assert forall|b: int|
                0 <= b < n && b != self.current && (
                #[trigger] self.blocks@[b]).terminator is None implies exists|i: int|
                0 <= i < self.loops@.len() && (#[trigger] self.loops@[i]).1 == b by {
                if b == exit {
                    assert(self.loops@[old_loops.len() as int].1 == b);
                } else {
                    let i = choose|i: int|
                        0 <= i < old_loops.len() && (#[trigger] old_loops[i]).1 == b;
                    assert(self.loops@[i] == old_loops[i]);
                }
            }
            assert forall|i: int, j: int|
                0 <= i < j < self.loops@.len() implies (#[trigger] self.loops@[i]).1 < (
                #[trigger] self.loops@[j]).1 by {
                if j == old_loops.len() {
                    assert(self.loops@[i] == old_loops[i]);
                }
            }
        }
        match self.compile_expression(body) {
            Ok(_) => {},
            Err(x) => {
                return Err(x);
            },
        }
        let ghost inner = self.loops@;
        let ghost s5 = self.state();
        self.loops.pop();
        assert(self.loops@ =~= old_loops);
        let ghost s6 = self.state();
        proof {
            lemma_step(s0, s4, s5);
            lemma_same_code(s5, s6);
            lemma_step(s0, s5, s6);
        }
        self.jump(header, exit);
        proof {
            lemma_step(s0, s6, self.state());
        }
        proof {
            let n = self.blocks@.len();
            assert forall|b: int|
                0 <= b < n && b != self.current && (
                #[trigger] self.blocks@[b]).terminator is None implies exists|i: int|
                0 <= i < self.loops@.len() && (#[trigger] self.loops@[i]).1 == b by {
                let i = choose|i: int|
                    0 <= i < inner.len() && (#[trigger] inner[i]).1 == b;
                assert(inner[i] == self.loops@[i]);
            }
            assert forall|i: int|
                0 <= i < self.loops@.len() implies (#[trigger] self.loops@[i]).1
                != self.current by {
                assert(inner[i] == self.loops@[i]);
                assert(inner[i].1 < inner[old_loops.len() as int].1);
            }
        }
        Ok(None)
    }

    /// A jump to the exit of the innermost loop, or else to its header; what follows goes to
    /// a new block.
    fn compile_loop_flow(&mut self, is_break: bool) -> (r: Result<Option<ValueId>, CompileError>)
        requires
            old(self).wf(),
        ensures
            Compiler::lowers(
                *old(self),
                *final(self),
                if is_break {
                    Expr::Break
                } else {
                    Expr::Continue
                },
                r,
            ),
    {
        let n = self.loops.len();
        if n == 0 {
            return Err(CompileError::LoopControlOutsideLoop);
        }
        let (header, exit) = self.loops[n - 1];
        let target = if is_break {
            exit
        } else {
            header
        };
        let next = self.new_block();
        self.jump(target, next);
        Ok(None)
    }

    fn compile_block(&mut self, b: &Block) -> (r: Result<Option<ValueId>, CompileError>)
        requires
            old(self).wf(),
        ensures
            Compiler::lowers(*old(self), *final(self), b@, r),
        decreases b, 1int,
    {
        let ghost ss = stmts_model(b.body@);
        let ghost s0 = self.state();
        proof {
            lemma_stmts_model(b.body@);
        }
        assert(ss.subrange(0, ss.len() as int) =~= ss);
        proof {
            lemma_grows_refl(s0);
        }
        let mut i: usize = 0;
        while i < b.body.len()
            invariant
                self.wf(),
                i <= b.body@.len(),
                ss == stmts_model(b.body@),
                ss.len() == b.body@.len(),
                forall|k: int| 0 <= k < b.body@.len() ==> #[trigger] ss[k] == stmt_model(b.body@[k]),
                s0 == old(self).state(),
                grows(s0, self.state()),
                self.current >= s0.current,
                forall|g: nat| good(s0, g) ==> #[trigger] good(self.state(), g),
                self.loops@ == old(self).loops@,
                old(self).names@.is_prefix_of(self.names@),
                gen_stmts(ss, s0) == gen_stmts(ss.subrange(i as int, ss.len() as int), self.state()),
            decreases b.body@.len() - i,
        {
            let ghost before = self.names@;
            let ghost sb = self.state();
            let ghost rest = ss.subrange(i as int, ss.len() as int);
            assert(rest[0] == ss[i as int]);
            assert(rest.subrange(1, rest.len() as int) =~= ss.subrange(i + 1, ss.len() as int));
            match self.compile_statement(&b.body[i]) {
                Ok(()) => {},
                Err(x) => {
                    return Err(x);
                },
            }
            proof {
                lemma_prefix_trans(old(self).names@, before, self.names@);
                lemma_step(s0, sb, self.state());
            }
            i = i + 1;
        }
        match &b.last {
            None => Ok(None),
            Some(x) => {
                let ghost before = self.names@;
                let ghost sb = self.state();
                let r = self.compile_expression(x);
                proof {
                    if r is Ok {
                        lemma_prefix_trans(old(self).names@, before, self.names@);
                        lemma_step(s0, sb, self.state());
                    }
                }
                r
            },
        }
    }

    fn compile_statement(&mut self, s: &Statement) -> (r: Result<(), CompileError>)
        requires
            old(self).wf(),
        ensures
            match gen_stmt(s@, old(self).state()) {
                Ok(s1) => r is Ok && final(self).state() == s1 && final(self).wf()
                    && final(self).loops@ == old(self).loops@ && old(self).names@.is_prefix_of(
                    final(self).names@) && Compiler::extends(*old(self), *final(self)),
                Err(x) => r matches Err(y) && y@ == x,
            },
        decreases s, 1int,
    {
        match s {
            Statement::Expression(e) => match self.compile_expression(e) {
                Ok(_) => Ok(()),
                Err(x) => Err(x),
            },
            Statement::VariableDefinition(d) => self.compile_variable_definition(d),
        }
    }

    /// Takes a new slot for the variable, stores its initial value there if it has one, and
    /// binds the name to the slot.
    fn compile_variable_definition(&mut self, d: &VariableDefinition) -> (r: Result<(), CompileError>)
        requires
            old(self).wf(),
        ensures
            match gen_stmt(d@, old(self).state()) {
                Ok(s1) => r is Ok && final(self).state() == s1 && final(self).wf()
                    && final(self).loops@ == old(self).loops@ && old(self).names@.is_prefix_of(
                    final(self).names@) && Compiler::extends(*old(self), *final(self)),
                Err(x) => r matches Err(y) && y@ == x,
            },
        decreases d, 1int,
    {
        let ghost s0 = self.state();
        let slot = self.slots.len();
        let ghost slots0 = self.slots@;
        self.slots.push(d.spec.name.clone());
        assert(self.slots@.map_values(|n: String| n@) =~= slots0.map_values(|n: String| n@).push(
            d.spec.name@,
        ));
        let ghost s1 = self.state();
        proof {
            assert(s0.names.is_prefix_of(s1.names)) by {
                assert(s1.names.subrange(0, s0.names.len() as int) =~= s0.names);
            }
            assert forall|g: nat| good(s0, g) implies #[trigger] good(s1, g) by {
                lemma_good_frame(s0, s1, g);
            }
            lemma_grows_frame(s0, s1);
        }
        match &d.value {
            Some(x) => {
                let value = match self.compile_expression(x) {
                    Ok(v) => v,
                    Err(e) => {
                        return Err(e);
                    },
                };
                match value {
                    Some(v) => {
                        let ghost s2 = self.state();
                        proof {
                            lemma_step(s0, s1, s2);
                        }
                        self.emit(Instr::Store { slot, value: v });
                        proof {
                            lemma_step(s0, s2, self.state());
                        }
                    },
                    None => {
                        proof {
                            lemma_step(s0, s1, self.state());
                        }
                    },
                }
            },
            None => {
                proof {
                    lemma_grows_refl(s1);
                    lemma_step(s0, s1, self.state());
                }
            },
        }
        let ghost s3 = self.state();
        let ghost before = self.names@;
        self.names.push(
            Entry {
                name: d.spec.name.clone(),
                value: NamedValue::Variable { is_mutable: d.spec.is_mutable, slot },
            },
        );
        assert(self.names_model() =~= before.map_values(|e: Entry| (e.name@, e.value)).push(
            (d.spec.name@, NamedValue::Variable { is_mutable: d.spec.is_mutable, slot }),
        ));
        assert(before.is_prefix_of(self.names@)) by {
            assert(self.names@.subrange(0, before.len() as int) =~= before);
        }
        proof {
            lemma_prefix_trans(old(self).names@, before, self.names@);
            assert(s3.names.is_prefix_of(self.state().names)) by {
                assert(self.state().names.subrange(0, s3.names.len() as int) =~= s3.names);
            }
            assert forall|g: nat| good(s3, g) implies #[trigger] good(self.state(), g) by {
                lemma_good_frame(s3, self.state(), g);
            }
            lemma_grows_frame(s3, self.state());
            lemma_step(s0, s3, self.state());
        }
        Ok(())
    }

    /// The value of a constant's initializer.
    fn fold(&self, e: &Expression) -> (r: Result<u64, CompileError>)
        ensures
            match fold(e@, self.names_model()) {
                Ok(v) => r matches Ok(x) && x == v,
                Err(x) => r matches Err(y) && y@ == x,
            },
        decreases e,
    {
        match e {
            Expression::Integer(v) => Ok(*v),
            Expression::Variable(name) => match self.lookup(name) {
                Some(NamedValue::Constant { value, .. }) => Ok(value),
                Some(NamedValue::Variable { .. }) => Err(CompileError::InvalidConstant),
                None => Err(CompileError::NameNotFound(name.clone())),
            },
            Expression::BinOp(op) => {
                let (kind, lhs, rhs) = match op {
                    BinOp::Add(l, r) => (ArithOp::Add, l, r),
                    BinOp::Sub(l, r) => (ArithOp::Sub, l, r),
                    BinOp::Mul(l, r) => (ArithOp::Mul, l, r),
                    BinOp::Div(l, r) => (ArithOp::SignedDiv, l, r),
                };
                assert(e@ == Expr::Bin(op_model(kind), Box::new((**lhs)@), Box::new((**rhs)@)));
                let a = match self.fold(lhs) {
                    Ok(v) => v,
                    Err(x) => {
                        return Err(x);
                    },
                };
                let b = match self.fold(rhs) {
                    Ok(v) => v,
                    Err(x) => {
                        return Err(x);
                    },
                };
                match apply_op(kind, a, b) {
                    Some(v) => Ok(v),
                    None => Err(CompileError::InvalidConstant),
                }
            },
            Expression::Block(b) => {
                proof {
                    lemma_stmts_model(b.body@);
                }
                match &b.last {
                    Some(x) => if b.body.len() == 0 {
                        self.fold(x)
                    } else {
                        Err(CompileError::InvalidConstant)
                    },
                    None => Err(CompileError::InvalidConstant),
                }
            },
            _ => Err(CompileError::InvalidConstant),
        }
    }
}

impl Compiler {
    /// Lowers one function, in the bindings made so far; its own variables go out of scope
    /// at its end.
    fn compile_function(&mut self, f: &Function, Ghost(globals): Ghost<nat>) -> (r: Result<IrFunction, CompileError>)
        requires
            forall|k: int|
                0 <= k < old(self).names@.len() ==> name_good(
                    #[trigger] old(self).names@[k].value,
                    0,
                    globals,
                ),
        ensures
            match gen_function(f.name@, bindings_model(f.parameters@), f.body@, old(self).names_model()) {
                Ok(fm) => r matches Ok(irf) && irf@ == fm && function_wf(irf) && function_refs_ok(irf@, globals)
                    && final(self).names@ == old(self).names@,
                Err(x) => r matches Err(y) && y@ == x,
            },
    {
        if f.parameters.len() > 0 {
            return Err(CompileError::UnsupportedParameters(f.name.clone()));
        }
        let saved = self.names.len();
        self.blocks = Vec::new();
        self.blocks.push(IrBlock { instrs: Vec::new(), terminator: None });
        self.current = 0;
        self.instrs = Vec::new();
        self.slots = Vec::new();
        self.loops = Vec::new();
        assert(self.wf());
        assert(self.state() =~= entry_state(old(self).names_model())) by {
            assert(self.blocks@.map_values(|b: IrBlock| b@) =~= seq![
                BlockM { instrs: Seq::empty(), terminator: None },
            ]);
            assert(self.slots@.map_values(|n: String| n@) =~= Seq::<Seq<char>>::empty());
        }
        assert(good(self.state(), globals)) by {
            let s = self.state();
            assert forall|k: int| 0 <= k < s.names.len() implies name_good(#[trigger] s.names[k].1, s.slots.len(), globals) by {
                assert(s.names[k].1 == self.names@[k].value);
            }
        }
        let body = match self.compile_expression(&f.body) {
            Ok(v) => v,
            Err(x) => {
                return Err(x);
            },
        };
        let result = match body {
            Some(v) => v,
            None => self.emit(Instr::Int(0)),
        };
        let ghost s2 = self.state();
        proof {
            assert forall|b: int| 0 <= b < s2.blocks.len() && b != s2.current implies (
            #[trigger] s2.blocks[b]).terminator is Some by {
                assert(s2.blocks[b] == self.blocks@[b]@);
                if self.blocks@[b].terminator is None {
                    assert(exists|i: int| 0 <= i < self.loops@.len() && (#[trigger] self.loops@[i]).1 == b);
                }
            }
            lemma_return_good(s2, result, globals, f.name@);
        }
        let ghost before = self.blocks@;
        let ghost c = self.current;
        self.close(Terminator::Return(result));
        self.names.truncate(saved);
        assert(self.names@ =~= old(self).names@);
        let mut blocks: Vec<IrBlock> = Vec::new();
        std::mem::swap(&mut blocks, &mut self.blocks);
        let mut slots: Vec<String> = Vec::new();
        std::mem::swap(&mut slots, &mut self.slots);
        let irf = IrFunction { name: f.name.clone(), slots, blocks };
        assert(function_wf(irf)) by {
            assert(irf.blocks@[c as int].terminator matches Some(Terminator::Return(_)));
            assert forall|b: int| 0 <= b < irf.blocks@.len() implies (
            #[trigger] irf.blocks@[b]).terminator is Some && target_ok(
                irf.blocks@[b].terminator->0,
                irf.blocks@.len() as int,
            ) by {
                if b != c {
                    assert(irf.blocks@[b] == before[b]);
                }
            }
        }
        Ok(irf)
    }

    /// Lowers every definition of `module` in order: a constant becomes a global holding its
    /// value, a function a function of the intermediate representation.
    pub fn compile_module(&mut self, module: &Module) -> (r: Result<IrModule, CompileError>)
        ensures
            match gen_module(module@) {
                Ok(m) => r matches Ok(ir) && ir@ == m && module_wf(ir) && refs_ok(ir@),
                Err(x) => r matches Err(y) && y@ == x,
            },
    {
        self.names = Vec::new();
        let ghost defs = module@.defs;
        let mut globals: Vec<IrGlobal> = Vec::new();
        let mut functions: Vec<IrFunction> = Vec::new();
        let mut i: usize = 0;
        assert(defs.subrange(0, defs.len() as int) =~= defs);
        assert(self.names_model() =~= Seq::<(Seq<char>, NamedValue)>::empty());
        assert(globals@.map_values(|g: IrGlobal| (g.name@, g.value)) =~= Seq::<(Seq<char>, u64)>::empty());
        assert(functions@.map_values(|f: IrFunction| f@) =~= Seq::<FunctionM>::empty());
        while i < module.definitions.len()
            invariant
                defs == module@.defs,
                defs.len() == module.definitions@.len(),
                i <= defs.len(),
                gen_defs(defs, Seq::empty(), Seq::empty(), Seq::empty()) == gen_defs(
                    defs.subrange(i as int, defs.len() as int),
                    self.names_model(),
                    globals@.map_values(|g: IrGlobal| (g.name@, g.value)),
                    functions@.map_values(|f: IrFunction| f@),
                ),
                forall|k: int| 0 <= k < functions@.len() ==> function_wf(#[trigger] functions@[k]),
                forall|k: int| 0 <= k < functions@.len() ==> function_refs_ok(#[trigger] functions@[k]@, globals@.len() as nat),
                forall|k: int| 0 <= k < self.names@.len() ==> name_good(#[trigger] self.names@[k].value, 0, globals@.len() as nat),
            decreases defs.len() - i,
        {
            let ghost rest = defs.subrange(i as int, defs.len() as int);
            assert(rest[0] == module.definitions@[i as int]@);
            assert(rest.drop_first() =~= defs.subrange(i + 1, defs.len() as int));
            match &module.definitions[i] {
                Definition::Function(f) => {
                    let irf = match self.compile_function(f, Ghost(globals@.len() as nat)) {
                        Ok(x) => x,
                        Err(x) => {
                            return Err(x);
                        },
                    };
                    let ghost fs0 = functions@;
                    functions.push(irf);
                    assert(functions@.map_values(|f: IrFunction| f@) =~= fs0.map_values(
                        |f: IrFunction| f@,
                    ).push(irf@));
                },
                Definition::Constant(c) => {
                    let value = match self.fold(&c.value) {
                        Ok(v) => v,
                        Err(x) => {
                            return Err(x);
                        },
                    };
                    let g = globals.len();
                    let ghost names0 = self.names@;
                    let ghost globals0 = globals@;
                    globals.push(IrGlobal { name: c.spec.name.clone(), value });
                    self.names.push(
                        Entry {
                            name: c.spec.name.clone(),
                            value: NamedValue::Constant { global: g, value },
                        },
                    );
                    assert(self.names_model() =~= names0.map_values(|e: Entry| (e.name@, e.value)).push(
                        (c.spec.name@, NamedValue::Constant { global: g, value }),
                    ));
                    assert forall|k: int| 0 <= k < functions@.len() implies function_refs_ok(
                        #[trigger] functions@[k]@,
                        globals@.len() as nat,
                    ) by {
                        lemma_function_refs_more_globals(functions@[k]@, globals0.len() as nat, globals@.len() as nat);
                    }
                    assert forall|k: int| 0 <= k < self.names@.len() implies name_good(
                        #[trigger] self.names@[k].value,
                        0,
                        globals@.len() as nat,
                    ) by {
                        if k < names0.len() {
                            assert(self.names@[k] == names0[k]);
                        }
                    }
                    assert(globals@.map_values(|g: IrGlobal| (g.name@, g.value)) =~= globals0.map_values(
                        |g: IrGlobal| (g.name@, g.value),
                    ).push((c.spec.name@, value)));
                },
            }
            i = i + 1;
        }
        assert(defs.subrange(i as int, defs.len() as int).len() == 0);
        let ir = IrModule { name: module.name.clone(), globals, functions };
        assert(module_wf(ir));
        assert(refs_ok(ir@)) by {
            assert forall|k: int| 0 <= k < ir@.functions.len() implies #[trigger] function_refs_ok(
                ir@.functions[k],
                ir@.globals.len(),
            ) by {
                assert(ir@.functions[k] == ir.functions@[k]@);
            }
        }
        Ok(ir)
    }
}

} // verus!
