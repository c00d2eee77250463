use vstd::prelude::*;
use inkwell::basic_block::BasicBlock;
use inkwell::builder::{Builder, BuilderError};
use inkwell::context::Context;
use inkwell::module::Module as LlvmModule;
use inkwell::types::{BasicMetadataTypeEnum, FunctionType, IntType};
use inkwell::values::{BasicValueEnum, FunctionValue, GlobalValue, IntValue, PointerValue};
use crate::ir::{
    ArithOp, FunctionM, Instr, IrFunction, IrModule, Terminator, ValueId, block_ok, function_refs_ok,
    instr_ok, refs_ok, value_ok,
};

verus! {

#[verifier::external_type_specification]
#[verifier::external_body]
pub struct ExContext(Context);

#[verifier::external_type_specification]
#[verifier::external_body]
pub struct ExLlvmModule<'ctx>(LlvmModule<'ctx>);

#[verifier::external_type_specification]
#[verifier::external_body]
pub struct ExBuilder<'ctx>(Builder<'ctx>);

#[verifier::external_type_specification]
#[verifier::external_body]
pub struct ExBuilderError(BuilderError);

#[verifier::external_type_specification]
#[verifier::external_body]
pub struct ExBasicBlock<'ctx>(BasicBlock<'ctx>);

#[verifier::external_type_specification]
#[verifier::external_body]
pub struct ExFunctionValue<'ctx>(FunctionValue<'ctx>);

#[verifier::external_type_specification]
#[verifier::external_body]
pub struct ExGlobalValue<'ctx>(GlobalValue<'ctx>);

#[verifier::external_type_specification]
#[verifier::external_body]
pub struct ExIntValue<'ctx>(IntValue<'ctx>);

#[verifier::external_type_specification]
#[verifier::external_body]
pub struct ExPointerValue<'ctx>(PointerValue<'ctx>);

#[verifier::external_type_specification]
#[verifier::external_body]
pub struct ExIntType<'ctx>(IntType<'ctx>);

#[verifier::external_type_specification]
#[verifier::external_body]
pub struct ExFunctionType<'ctx>(FunctionType<'ctx>);

#[verifier::external_type_specification]
#[verifier::external_body]
pub struct ExBasicMetadataTypeEnum<'ctx>(BasicMetadataTypeEnum<'ctx>);

/// Relies on `Context::i64_type`: the 64-bit integer type.
#[verifier::external_body]
fn i64_type<'ctx>(context: &'ctx Context) -> IntType<'ctx> {
    context.i64_type()
}

/// Relies on `IntType::fn_type`: the type of functions returning `ret` that take `params`.
#[verifier::external_body]
fn fn_type<'ctx>(ret: IntType<'ctx>, params: &[BasicMetadataTypeEnum<'ctx>], is_var_args: bool) -> FunctionType<'ctx> {
    ret.fn_type(params, is_var_args)
}

/// Relies on `Context::create_module`: a new, empty module named `name`.
#[verifier::external_body]
fn create_module<'ctx>(context: &'ctx Context, name: &str) -> LlvmModule<'ctx> {
    context.create_module(name)
}

/// Relies on `Context::create_builder`: a builder not yet positioned in any block.
#[verifier::external_body]
fn create_builder<'ctx>(context: &'ctx Context) -> Builder<'ctx> {
    context.create_builder()
}

/// Relies on `Module::add_function`: declares `name` as a function of type `ty`.
#[verifier::external_body]
fn add_function<'ctx>(module: &LlvmModule<'ctx>, name: &str, ty: FunctionType<'ctx>) -> FunctionValue<'ctx> {
    module.add_function(name, ty, None)
}

/// Relies on `Context::append_basic_block`: a new block at the end of `function`.
#[verifier::external_body]
fn append_block<'ctx>(context: &'ctx Context, function: FunctionValue<'ctx>) -> BasicBlock<'ctx> {
    context.append_basic_block(function, "")
}

/// Relies on `Builder::position_at_end`: later instructions go to the end of `block`.
#[verifier::external_body]
fn position_at_end<'ctx>(builder: &Builder<'ctx>, block: BasicBlock<'ctx>) {
    builder.position_at_end(block)
}

/// Relies on `IntType::const_int`: the constant of type `ty` with the bits of `value`.
#[verifier::external_body]
fn const_int<'ctx>(ty: IntType<'ctx>, value: u64, sign_extend: bool) -> IntValue<'ctx> {
    ty.const_int(value, sign_extend)
}

/// Relies on `Module::add_global`: declares a global of type `ty` named `name`.
#[verifier::external_body]
fn add_global<'ctx>(module: &LlvmModule<'ctx>, ty: IntType<'ctx>, name: &str) -> GlobalValue<'ctx> {
    module.add_global(ty, None, name)
}

/// Relies on `GlobalValue::set_constant`: marks the global immutable.
#[verifier::external_body]
fn set_constant<'ctx>(global: GlobalValue<'ctx>) {
    global.set_constant(true)
}

/// Relies on `GlobalValue::set_initializer`: gives the global its initial value.
#[verifier::external_body]
fn set_initializer<'ctx>(global: GlobalValue<'ctx>, value: IntValue<'ctx>) {
    global.set_initializer(&value)
}

/// Relies on `GlobalValue::as_pointer_value`: the address of the global.
#[verifier::external_body]
fn global_pointer<'ctx>(global: GlobalValue<'ctx>) -> PointerValue<'ctx> {
    global.as_pointer_value()
}

/// Relies on `Builder::build_alloca`: a stack slot for one value of type `ty`.
#[verifier::external_body]
fn build_alloca<'ctx>(builder: &Builder<'ctx>, ty: IntType<'ctx>, name: &str) -> Result<PointerValue<'ctx>, BuilderError> {
    builder.build_alloca(ty, name)
}

/// Relies on `Builder::build_load`: the value read from `pointer`, when it is an integer.
#[verifier::external_body]
fn build_load<'ctx>(builder: &Builder<'ctx>, pointer: PointerValue<'ctx>) -> Result<Option<IntValue<'ctx>>, BuilderError> {
    match builder.build_load(pointer, "") {
        Ok(BasicValueEnum::IntValue(v)) => Ok(Some(v)),
        Ok(_) => Ok(None),
        Err(e) => Err(e),
    }
}

/// Relies on `Builder::build_store`: writes `value` to `pointer`.
#[verifier::external_body]
fn build_store<'ctx>(builder: &Builder<'ctx>, pointer: PointerValue<'ctx>, value: IntValue<'ctx>) -> Result<(), BuilderError> {
    builder.build_store(pointer, value).map(|_| ())
}

/// Relies on `Builder::build_int_add`.
#[verifier::external_body]
fn build_int_add<'ctx>(builder: &Builder<'ctx>, lhs: IntValue<'ctx>, rhs: IntValue<'ctx>) -> Result<IntValue<'ctx>, BuilderError> {
    builder.build_int_add(lhs, rhs, "")
}

/// Relies on `Builder::build_int_sub`.
#[verifier::external_body]
fn build_int_sub<'ctx>(builder: &Builder<'ctx>, lhs: IntValue<'ctx>, rhs: IntValue<'ctx>) -> Result<IntValue<'ctx>, BuilderError> {
    builder.build_int_sub(lhs, rhs, "")
}

/// Relies on `Builder::build_int_mul`.
#[verifier::external_body]
fn build_int_mul<'ctx>(builder: &Builder<'ctx>, lhs: IntValue<'ctx>, rhs: IntValue<'ctx>) -> Result<IntValue<'ctx>, BuilderError> {
    builder.build_int_mul(lhs, rhs, "")
}

/// Relies on `Builder::build_int_signed_div`.
#[verifier::external_body]
fn build_int_signed_div<'ctx>(builder: &Builder<'ctx>, lhs: IntValue<'ctx>, rhs: IntValue<'ctx>) -> Result<IntValue<'ctx>, BuilderError> {
    builder.build_int_signed_div(lhs, rhs, "")
}

/// Relies on `Builder::build_unconditional_branch`: ends the block with a jump to `target`.
#[verifier::external_body]
fn build_branch<'ctx>(builder: &Builder<'ctx>, target: BasicBlock<'ctx>) -> Result<(), BuilderError> {
    builder.build_unconditional_branch(target).map(|_| ())
}

/// Relies on `Builder::build_return`: ends the block by returning `value`.
#[verifier::external_body]
fn build_return<'ctx>(builder: &Builder<'ctx>, value: IntValue<'ctx>) -> Result<(), BuilderError> {
    builder.build_return(Some(&value)).map(|_| ())
}

/// Relies on `FunctionValue::verify`: whether LLVM's verifier accepts the function.
#[verifier::external_body]
fn verify_function<'ctx>(function: FunctionValue<'ctx>) -> bool {
    function.verify(false)
}

/// Why a lowered module could not be handed to LLVM.
#[derive(Debug, PartialEq, Eq)]
pub enum BackendError {
    /// LLVM's instruction builder refused an instruction.
    Builder,
    /// An instruction refers to a value that is not defined before it, or to a value of
    /// the wrong kind; or a block has no terminator or jumps outside its function.
    MalformedIr,
    /// LLVM's verifier refused the function of this name.
    InvalidFunction(String),
}

/// What an instruction left for later instructions: a value, or nothing for a store.
#[derive(Clone, Copy)]
enum Emitted<'ctx> {
    Int(IntValue<'ctx>),
    Nothing,
}

/// The value `id` names: from an earlier block, or from the current one (`row`, block `current`).
fn value_of<'ctx>(done: &Vec<Vec<Emitted<'ctx>>>, row: &Vec<Emitted<'ctx>>, current: usize, id: ValueId) -> (r: Option<Emitted<'ctx>>)
    ensures
        id.block < done@.len() && id.index < done@[id.block as int]@.len() ==> r == Some(done@[id.block as int]@[id.index as int]),
        id.block == current && current >= done@.len() && id.index < row@.len() ==> r == Some(row@[id.index as int]),
        !(id.block < done@.len() && id.index < done@[id.block as int]@.len()) && !(id.block == current && current >= done@.len() && id.index < row@.len()) ==> r is None,
{
    if id.block < done.len() {
        let block = &done[id.block];
        if id.index < block.len() {
            return Some(block[id.index]);
        }
        None
    } else if id.block == current && id.index < row.len() {
        Some(row[id.index])
    } else {
        None
    }
}

/// `e` records instruction `i`: a value unless `i` is a store.
pub open spec fn records(e: Emitted, i: Instr) -> bool {
    (e is Int) <==> !(i is Store)
}

/// `done` records the blocks before `b` of `f`, and `row` the first instructions of block `b`.
pub open spec fn recorded(done: Seq<Vec<Emitted>>, row: Seq<Emitted>, f: FunctionM, b: int) -> bool {
    &&& done.len() == b
    &&& b < f.blocks.len()
    &&& forall|k: int| 0 <= k < b ==> (#[trigger] done[k])@.len() == f.blocks[k].instrs.len()
    &&& forall|k: int, j: int|
        0 <= k < b && 0 <= j < f.blocks[k].instrs.len() ==> records(
            #[trigger] done[k]@[j],
            #[trigger] f.blocks[k].instrs[j],
        )
    &&& row.len() <= f.blocks[b].instrs.len()
    &&& forall|j: int| 0 <= j < row.len() ==> records(#[trigger] row[j], f.blocks[b].instrs[j])
}

fn int_of<'ctx>(done: &Vec<Vec<Emitted<'ctx>>>, row: &Vec<Emitted<'ctx>>, current: usize, id: ValueId, Ghost(f): Ghost<FunctionM>) -> (r: Result<IntValue<'ctx>, BackendError>)
    requires
        recorded(done@, row@, f, current as int),
    ensures
        r is Ok <==> value_ok(f, current as int, row@.len() as int, id),
        r matches Err(e) ==> e == BackendError::MalformedIr,
{
    match value_of(done, row, current, id) {
        Some(Emitted::Int(v)) => Ok(v),
        _ => Err(BackendError::MalformedIr),
    }
}

fn builder_result<T>(r: Result<T, BuilderError>) -> (out: Result<T, BackendError>)
    ensures
        r is Ok <==> out is Ok,
        out matches Err(e) ==> e == BackendError::Builder,
{
    match r {
        Ok(v) => Ok(v),
        Err(_) => Err(BackendError::Builder),
    }
}

/// Emits instruction `row.len()` of block `current` of `f`.
fn emit_instr<'ctx>(
    context: &'ctx Context,
    builder: &Builder<'ctx>,
    globals: &Vec<GlobalValue<'ctx>>,
    slots: &Vec<PointerValue<'ctx>>,
    done: &Vec<Vec<Emitted<'ctx>>>,
    row: &Vec<Emitted<'ctx>>,
    current: usize,
    instr: &Instr,
    Ghost(f): Ghost<FunctionM>,
) -> (r: Result<Emitted<'ctx>, BackendError>)
    requires
        recorded(done@, row@, f, current as int),
        slots@.len() == f.slots.len(),
    ensures
        r matches Ok(e) ==> records(e, *instr) && instr_ok(f, globals@.len(), current as int, row@.len() as int, *instr),
        r matches Err(BackendError::MalformedIr) ==> !instr_ok(f, globals@.len(), current as int, row@.len() as int, *instr),
        r matches Err(e) ==> e == BackendError::MalformedIr || e == BackendError::Builder,
{
    match instr {
        Instr::Int(v) => Ok(Emitted::Int(const_int(i64_type(context), *v, false))),
        Instr::LoadGlobal(g) => {
            if *g >= globals.len() {
                return Err(BackendError::MalformedIr);
            }
            match builder_result(build_load(builder, global_pointer(globals[*g]))) {
                Ok(Some(v)) => Ok(Emitted::Int(v)),
                Ok(None) => Err(BackendError::Builder),
                Err(e) => Err(e),
            }
        },
        Instr::Load(slot) => {
            if *slot >= slots.len() {
                return Err(BackendError::MalformedIr);
            }
            match builder_result(build_load(builder, slots[*slot])) {
                Ok(Some(v)) => Ok(Emitted::Int(v)),
                Ok(None) => Err(BackendError::Builder),
                Err(e) => Err(e),
            }
        },
        Instr::Store { slot, value } => {
            if *slot >= slots.len() {
                return Err(BackendError::MalformedIr);
            }
            let v = int_of(done, row, current, *value, Ghost(f))?;
            builder_result(build_store(builder, slots[*slot], v))?;
            Ok(Emitted::Nothing)
        },
        Instr::Arith(op, lhs, rhs) => {
            let l = int_of(done, row, current, *lhs, Ghost(f))?;
            let r = int_of(done, row, current, *rhs, Ghost(f))?;
            let v = match op {
                ArithOp::Add => build_int_add(builder, l, r),
                ArithOp::Sub => build_int_sub(builder, l, r),
                ArithOp::Mul => build_int_mul(builder, l, r),
                ArithOp::SignedDiv => build_int_signed_div(builder, l, r),
            };
            Ok(Emitted::Int(builder_result(v)?))
        },
    }
}

/// Builds the LLVM function of `f` in `module`: a stack slot for each of its slots in the
/// entry block, then its blocks in order.
fn emit_function<'ctx>(
    context: &'ctx Context,
    module: &LlvmModule<'ctx>,
    builder: &Builder<'ctx>,
    globals: &Vec<GlobalValue<'ctx>>,
    f: &IrFunction,
) -> (r: Result<(), BackendError>)
    ensures
        r is Ok ==> function_refs_ok(f@, globals@.len()),
        r matches Err(BackendError::MalformedIr) ==> !function_refs_ok(f@, globals@.len()),
        r matches Err(BackendError::InvalidFunction(n)) ==> n@ == f.name@,
{
    let ghost fm = f@;
    let ghost ng = globals@.len();
    let n = f.blocks.len();
    if n == 0 {
        return Err(BackendError::MalformedIr);
    }
    let word_type = i64_type(context);
    let params: Vec<BasicMetadataTypeEnum<'ctx>> = Vec::new();
    let function = add_function(module, f.name.as_str(), fn_type(word_type, params.as_slice(), false));
    let mut blocks: Vec<BasicBlock<'ctx>> = Vec::new();
    while blocks.len() < n
        invariant
            blocks@.len() <= n,
            n == f.blocks@.len(),
        decreases n - blocks@.len(),
    {
        blocks.push(append_block(context, function));
    }
    position_at_end(builder, blocks[0]);
    let mut slots: Vec<PointerValue<'ctx>> = Vec::new();
    while slots.len() < f.slots.len()
        invariant
            slots@.len() <= f.slots@.len(),
        decreases f.slots@.len() - slots@.len(),
    {
        let p = builder_result(build_alloca(builder, word_type, f.slots[slots.len()].as_str()))?;
        slots.push(p);
    }
    let mut done: Vec<Vec<Emitted<'ctx>>> = Vec::new();
    let mut b: usize = 0;
    while b < n
        invariant
            fm == f@,
            ng == globals@.len(),
            n == f.blocks@.len(),
            n == fm.blocks.len(),
            blocks@.len() == n,
            slots@.len() == fm.slots.len(),
            b <= n,
            done@.len() == b,
            forall|k: int| 0 <= k < b ==> (#[trigger] done@[k])@.len() == fm.blocks[k].instrs.len(),
            forall|k: int, j: int|
                0 <= k < b && 0 <= j < fm.blocks[k].instrs.len() ==> records(
                    #[trigger] done@[k]@[j],
                    #[trigger] fm.blocks[k].instrs[j],
                ),
            forall|k: int| 0 <= k < b ==> #[trigger] block_ok(fm, ng, k),
        decreases n - b,
    {
        let block = &f.blocks[b];
        assert(fm.blocks[b as int] == block@);
        position_at_end(builder, blocks[b]);
        let mut row: Vec<Emitted<'ctx>> = Vec::new();
        let mut i: usize = 0;
        while i < block.instrs.len()
            invariant
                fm == f@,
                ng == globals@.len(),
                b < n,
                n == fm.blocks.len(),
                block == &f.blocks@[b as int],
                fm.blocks[b as int] == block@,
                slots@.len() == fm.slots.len(),
                i == row@.len(),
                i <= block.instrs@.len(),
                recorded(done@, row@, fm, b as int),
                forall|j: int| 0 <= j < i ==> instr_ok(fm, ng, b as int, j, #[trigger] block.instrs@[j]),
            decreases block.instrs@.len() - i,
        {
            let r = emit_instr(context, builder, globals, &slots, &done, &row, b, &block.instrs[i], Ghost(fm));
            let v = match r {
                Ok(v) => v,
                Err(e) => {
                    proof {
                        if e is MalformedIr {
                            assert(fm.blocks[b as int].instrs[i as int] == block.instrs@[i as int]);
                            assert(!block_ok(fm, ng, b as int));
                        }
                    }
                    return Err(e);
                },
            };
            row.push(v);
            i = i + 1;
        }
        match block.terminator {
            Some(Terminator::Jump(target)) => {
                if target >= n {
                    assert(!block_ok(fm, ng, b as int));
                    return Err(BackendError::MalformedIr);
                }
                builder_result(build_branch(builder, blocks[target]))?;
            },
            Some(Terminator::Return(value)) => {
                let v = match int_of(&done, &row, b, value, Ghost(fm)) {
                    Ok(v) => v,
                    Err(e) => {
                        assert(!block_ok(fm, ng, b as int));
                        return Err(e);
                    },
                };
                builder_result(build_return(builder, v))?;
            },
            None => {
                assert(!block_ok(fm, ng, b as int));
                return Err(BackendError::MalformedIr);
            },
        }
        let ghost done0 = done@;
        done.push(row);
        assert(block_ok(fm, ng, b as int));
        b = b + 1;
    }
    if verify_function(function) {
        Ok(())
    } else {
        Err(BackendError::InvalidFunction(f.name.clone()))
    }
}

/// Hands a lowered module to LLVM: one global per constant, with its value, and one function
/// per function. It fails with `MalformedIr` only when some function's references are not
/// good, and does not succeed then; LLVM's builder and verifier may refuse it too.
pub fn emit_module<'ctx>(context: &'ctx Context, ir: &IrModule) -> (r: Result<LlvmModule<'ctx>, BackendError>)
    ensures
        r is Ok ==> refs_ok(ir@),
        r matches Err(BackendError::MalformedIr) ==> !refs_ok(ir@),
        !refs_ok(ir@) ==> r is Err,
        r matches Err(BackendError::InvalidFunction(n)) ==> exists|k: int|
            0 <= k < ir.functions@.len() && (#[trigger] ir.functions@[k]).name@ == n@,
{
    let module = create_module(context, ir.name.as_str());
    let builder = create_builder(context);
    let mut globals: Vec<GlobalValue<'ctx>> = Vec::new();
    let mut g: usize = 0;
    while g < ir.globals.len()
        invariant
            g <= ir.globals@.len(),
            globals@.len() == g,
        decreases ir.globals@.len() - g,
    {
        let word_type = i64_type(context);
        let global = add_global(&module, word_type, ir.globals[g].name.as_str());
        set_constant(global);
        set_initializer(global, const_int(word_type, ir.globals[g].value, false));
        globals.push(global);
        g = g + 1;
    }
    let ghost m = ir@;
    let mut i: usize = 0;
    while i < ir.functions.len()
        invariant
            m == ir@,
            globals@.len() == m.globals.len(),
            i <= ir.functions@.len(),
            forall|k: int| 0 <= k < i ==> #[trigger] function_refs_ok(m.functions[k], m.globals.len()),
        decreases ir.functions@.len() - i,
    {
        assert(m.functions[i as int] == ir.functions@[i as int]@);
        match emit_function(context, &module, &builder, &globals, &ir.functions[i]) {
            Ok(()) => {},
            Err(e) => {
                proof {
                    if e is MalformedIr {
                        assert(!function_refs_ok(m.functions[i as int], m.globals.len()));
                    }
                }
                return Err(e);
            },
        }
        i = i + 1;
    }
    Ok(module)
}

} // verus!
