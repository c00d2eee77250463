use embryon_lang::ast::{Definition, Expression, Function, Module, VariableSpec};
use embryon_lang::compile::{apply_op, CompileError, Compiler};
use embryon_lang::ir::{ArithOp, Instr, IrModule, Terminator, ValueId};

fn lower(source: &str) -> Result<IrModule, CompileError> {
    let program = embryon_lang::parse(embryon_lang::lex(source)).expect("the source parses");
    embryon_lang::compile(&program)
}

fn every_block_terminated(ir: &IrModule) -> bool {
    ir.functions.iter().all(|f| f.blocks.iter().all(|b| b.terminator.is_some()))
}

#[test]
fn compile_constant_reassignment_fails() {
    let err = lower("const x = 0; fn main() { x = 1 }").unwrap_err();
    assert_eq!(err, CompileError::ReassignedImmutable("x".into()));
}

#[test]
fn compile_immutable_variable_reassignment_fails() {
    let err = lower("fn main() { let x = 0; x = 1 }").unwrap_err();
    assert_eq!(err, CompileError::ReassignedImmutable("x".into()));
    assert!(lower("fn main() { let mut x = 0; x = 1 }").is_ok());
}

#[test]
fn compile_loop_control_outside_loop_fails() {
    assert_eq!(lower("fn main() { break }").unwrap_err(), CompileError::LoopControlOutsideLoop);
    assert_eq!(lower("fn main() continue").unwrap_err(), CompileError::LoopControlOutsideLoop);
    assert_eq!(
        lower("fn main() { loop { break }; continue }").unwrap_err(),
        CompileError::LoopControlOutsideLoop
    );
}

#[test]
fn compile_loop_with_break_has_exit_path() {
    let ir = lower("fn main() { loop { break } }").unwrap();
    assert_eq!(ir.functions.len(), 1);
    let f = &ir.functions[0];
    assert!(every_block_terminated(&ir));
    // entry, header, exit, and the block after the `break`
    assert_eq!(f.blocks.len(), 4);
    assert_eq!(f.blocks[0].terminator, Some(Terminator::Jump(1)));
    assert_eq!(f.blocks[1].terminator, Some(Terminator::Jump(2)));
    assert_eq!(f.blocks[3].terminator, Some(Terminator::Jump(1)));
    assert!(matches!(f.blocks[2].terminator, Some(Terminator::Return(_))));
}

#[test]
fn compile_continue_jumps_to_header() {
    let ir = lower("fn main() { loop { continue } }").unwrap();
    let f = &ir.functions[0];
    assert_eq!(f.blocks[1].terminator, Some(Terminator::Jump(1)));
    assert!(every_block_terminated(&ir));
}

#[test]
fn compile_name_not_found() {
    assert_eq!(lower("fn main() y").unwrap_err(), CompileError::NameNotFound("y".into()));
    assert_eq!(lower("fn main() { y = 1 }").unwrap_err(), CompileError::NameNotFound("y".into()));
    // Variables do not outlive their function.
    assert_eq!(
        lower("fn f() { let x = 1; } fn g() x").unwrap_err(),
        CompileError::NameNotFound("x".into())
    );
}

#[test]
fn compile_operand_without_value() {
    assert_eq!(lower("fn main() 1 + {}").unwrap_err(), CompileError::OperandHasNoValue);
    assert_eq!(lower("fn main() { let x = 1; } * 2").unwrap_err(), CompileError::OperandHasNoValue);
}

#[test]
fn compile_constants_are_folded() {
    let ir = lower("const a = 6; const b = a * 7 - 2; const c = 0 - 7 / 2; fn main() b").unwrap();
    assert_eq!(ir.globals.len(), 3);
    assert_eq!(ir.globals[0].value, 6);
    assert_eq!(ir.globals[1].name, "b");
    assert_eq!(ir.globals[1].value, 40);
    assert_eq!(ir.globals[2].value, (-3i64) as u64);
    let f = &ir.functions[0];
    assert_eq!(f.blocks[0].instrs, vec![Instr::LoadGlobal(1)]);
}

#[test]
fn compile_invalid_constants() {
    assert_eq!(lower("const a = 1 / 0;").unwrap_err(), CompileError::InvalidConstant);
    assert_eq!(lower("const a = loop {};").unwrap_err(), CompileError::InvalidConstant);
    assert_eq!(lower("const a = b;").unwrap_err(), CompileError::NameNotFound("b".into()));
    assert_eq!(lower("fn main() 0 const a = main;").unwrap_err(), CompileError::NameNotFound("main".into()));
}

#[test]
fn compile_function_body_instructions() {
    let ir = lower("fn main() { let mut x = 1; x = x + 2 }").unwrap();
    let f = &ir.functions[0];
    assert_eq!(f.name, "main");
    assert_eq!(f.slots, vec!["x".to_string()]);
    assert_eq!(f.blocks.len(), 1);
    let b = &f.blocks[0];
    let v = |index: usize| ValueId { block: 0, index };
    assert_eq!(
        b.instrs,
        vec![
            Instr::Int(1),
            Instr::Store { slot: 0, value: v(0) },
            Instr::Load(0),
            Instr::Int(2),
            Instr::Arith(ArithOp::Add, v(2), v(3)),
            Instr::Store { slot: 0, value: v(4) },
        ]
    );
    assert_eq!(b.terminator, Some(Terminator::Return(v(4))));
}

#[test]
fn compile_variable_defined_after_break_is_usable() {
    let context = inkwell::context::Context::create();
    let ir = lower("fn main() { loop { break; let x = 1; }; x }").unwrap();
    assert!(embryon_lang::backend::emit_module(&context, &ir).is_ok());
}

#[test]
fn compile_unit_body_returns_zero() {
    let ir = lower("fn main() {}").unwrap();
    let b = &ir.functions[0].blocks[0];
    assert_eq!(b.instrs, vec![Instr::Int(0)]);
    assert!(matches!(b.terminator, Some(Terminator::Return(v)) if v.index == 0));
}

#[test]
fn compile_signed_arithmetic() {
    assert_eq!(apply_op(ArithOp::Add, u64::MAX, 2), Some(1));
    assert_eq!(apply_op(ArithOp::Sub, 1, 3), Some((-2i64) as u64));
    assert_eq!(apply_op(ArithOp::Mul, 1 << 63, 2), Some(0));
    assert_eq!(apply_op(ArithOp::SignedDiv, (-7i64) as u64, 2), Some((-3i64) as u64));
    assert_eq!(apply_op(ArithOp::SignedDiv, 7, (-2i64) as u64), Some((-3i64) as u64));
    assert_eq!(apply_op(ArithOp::SignedDiv, i64::MIN as u64, u64::MAX), Some(i64::MIN as u64));
    assert_eq!(apply_op(ArithOp::SignedDiv, 5, 0), None);
}

#[test]
fn compile_refuses_parameters() {
    let program = Module {
        name: "m".into(),
        definitions: vec![Definition::Function(Function {
            name: "f".into(),
            parameters: vec![VariableSpec::new("a")],
            body: Expression::Integer(0),
        })],
    };
    let mut compiler = Compiler::new();
    assert_eq!(
        compiler.compile_module(&program).unwrap_err(),
        CompileError::UnsupportedParameters("f".into())
    );
}

#[test]
fn compile_function_names_in_order() {
    let ir = lower("fn a() 1 const c = 2; fn b() c").unwrap();
    let names: Vec<&str> = ir.functions.iter().map(|f| f.name.as_str()).collect();
    assert_eq!(names, vec!["a", "b"]);
    assert_eq!(ir.name, "main");
}
