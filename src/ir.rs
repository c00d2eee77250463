use vstd::prelude::*;

verus! {

/// The integer operations of the intermediate representation, on 64-bit two's complement values.
#[derive(Debug, Clone, Copy, PartialEq, Eq)]
pub enum ArithOp {
    Add,
    Sub,
    Mul,
    SignedDiv,
}

/// The value that instruction `index` of block `block` defines.
#[derive(Debug, Clone, Copy, PartialEq, Eq)]
pub struct ValueId {
    pub block: usize,
    pub index: usize,
}

/// An instruction. Each one but `Store` defines a value. Globals are named by their place in
/// the module, stack slots by their place in the function.
#[derive(Debug, Clone, Copy, PartialEq, Eq)]
pub enum Instr {
    Int(u64),
    LoadGlobal(usize),
    Load(usize),
    Store { slot: usize, value: ValueId },
    Arith(ArithOp, ValueId, ValueId),
}

/// How a block ends: a jump to another block of the function, or a return of a value.
#[derive(Debug, Clone, Copy, PartialEq, Eq)]
pub enum Terminator {
    Jump(usize),
    Return(ValueId),
}

#[derive(Debug, PartialEq, Eq)]
pub struct IrBlock {
    pub instrs: Vec<Instr>,
    pub terminator: Option<Terminator>,
}

/// A function of no parameters returning one machine integer. Each of its stack slots holds
/// one machine integer and is named after the variable it holds; block 0 is its entry.
#[derive(Debug, PartialEq, Eq)]
pub struct IrFunction {
    pub name: String,
    pub slots: Vec<String>,
    pub blocks: Vec<IrBlock>,
}

/// An immutable global holding a machine integer.
#[derive(Debug, PartialEq, Eq)]
pub struct IrGlobal {
    pub name: String,
    pub value: u64,
}

#[derive(Debug, PartialEq, Eq)]
pub struct IrModule {
    pub name: String,
    pub globals: Vec<IrGlobal>,
    pub functions: Vec<IrFunction>,
}

// The mathematical model of the intermediate representation.
pub struct BlockM {
    pub instrs: Seq<Instr>,
    pub terminator: Option<Terminator>,
}

pub struct FunctionM {
    pub name: Seq<char>,
    pub slots: Seq<Seq<char>>,
    pub blocks: Seq<BlockM>,
}

pub struct ModuleM {
    pub name: Seq<char>,
    pub globals: Seq<(Seq<char>, u64)>,
    pub functions: Seq<FunctionM>,
}

impl View for IrBlock {
    type V = BlockM;

    open spec fn view(&self) -> BlockM {
        BlockM { instrs: self.instrs@, terminator: self.terminator }
    }
}

impl View for IrFunction {
    type V = FunctionM;

    open spec fn view(&self) -> FunctionM {
        FunctionM {
            name: self.name@,
            slots: self.slots@.map_values(|n: String| n@),
            blocks: self.blocks@.map_values(|b: IrBlock| b@),
        }
    }
}

impl View for IrModule {
    type V = ModuleM;

    open spec fn view(&self) -> ModuleM {
        ModuleM {
            name: self.name@,
            globals: self.globals@.map_values(|g: IrGlobal| (g.name@, g.value)),
            functions: self.functions@.map_values(|f: IrFunction| f@),
        }
    }
}

pub open spec fn target_ok(t: Terminator, n: int) -> bool {
    match t {
        Terminator::Jump(b) => b < n,
        Terminator::Return(_) => true,
    }
}

/// Every block ends in exactly one terminator, every jump lands on a block of the function,
/// and some block returns.
pub open spec fn function_wf(f: IrFunction) -> bool {
    &&& f.blocks@.len() > 0
    &&& forall|b: int|
        0 <= b < f.blocks@.len() ==> (#[trigger] f.blocks@[b]).terminator is Some && target_ok(
            f.blocks@[b].terminator->0,
            f.blocks@.len() as int,
        )
    &&& exists|b: int|
        0 <= b < f.blocks@.len() && (#[trigger] f.blocks@[b]).terminator matches Some(
            Terminator::Return(_),
        )
}

pub open spec fn module_wf(m: IrModule) -> bool {
    forall|i: int| 0 <= i < m.functions@.len() ==> function_wf(#[trigger] m.functions@[i])
}

/// A value reference `id` from instruction `index` of block `block` is good when it names an
/// earlier instruction, of this block or of an earlier one, that defines a value.
pub open spec fn value_ok(f: FunctionM, block: int, index: int, id: ValueId) -> bool {
    let b = id.block as int;
    let i = id.index as int;
    &&& (b < block || (b == block && i < index))
    &&& b < f.blocks.len()
    &&& i < f.blocks[b].instrs.len()
    &&& !(f.blocks[b].instrs[i] is Store)
}

pub open spec fn instr_ok(f: FunctionM, globals: nat, block: int, index: int, i: Instr) -> bool {
    match i {
        Instr::Int(_) => true,
        Instr::LoadGlobal(g) => g < globals,
        Instr::Load(slot) => slot < f.slots.len(),
        Instr::Store { slot, value } => slot < f.slots.len() && value_ok(f, block, index, value),
        Instr::Arith(_, a, b) => value_ok(f, block, index, a) && value_ok(f, block, index, b),
    }
}

pub open spec fn terminator_ok(f: FunctionM, block: int, t: Option<Terminator>) -> bool {
    match t {
        Some(Terminator::Jump(target)) => target < f.blocks.len(),
        Some(Terminator::Return(v)) => value_ok(f, block, f.blocks[block].instrs.len() as int, v),
        None => false,
    }
}

/// Block `b` of `f` is closed and all its references are good.
pub open spec fn block_ok(f: FunctionM, globals: nat, b: int) -> bool {
    &&& forall|i: int|
        0 <= i < f.blocks[b].instrs.len() ==> instr_ok(f, globals, b, i, #[trigger] f.blocks[b].instrs[i])
    &&& terminator_ok(f, b, f.blocks[b].terminator)
}

/// A function that can be handed to LLVM: it has an entry block, every block is closed,
/// every jump stays within the function, every global and slot exists, and every value is
/// defined before it is used, by an instruction that defines one.
pub open spec fn function_refs_ok(f: FunctionM, globals: nat) -> bool {
    &&& f.blocks.len() > 0
    &&& forall|b: int| 0 <= b < f.blocks.len() ==> #[trigger] block_ok(f, globals, b)
}

pub open spec fn refs_ok(m: ModuleM) -> bool {
    forall|k: int| 0 <= k < m.functions.len() ==> #[trigger] function_refs_ok(m.functions[k], m.globals.len())
}

} // verus!
