use embryon_lang::backend::{emit_module, BackendError};
use embryon_lang::ir::{Instr, IrBlock, IrFunction, IrModule, Terminator, ValueId};
use inkwell::context::Context;

fn lower(source: &str) -> IrModule {
    let program = embryon_lang::parse(embryon_lang::lex(source)).expect("the source parses");
    embryon_lang::compile(&program).expect("the module lowers")
}

#[test]
fn emit_constant_arithmetic() {
    let context = Context::create();
    let ir = lower("fn main() 1 + 2");
    let module = emit_module(&context, &ir).expect("LLVM accepts the module");
    let text = module.print_to_string().to_string();
    assert!(text.contains("define i64 @main()"), "{text}");
    assert!(text.contains("ret i64 3"), "{text}");
    assert!(module.verify().is_ok());
}

#[test]
fn emit_globals_and_variables() {
    let context = Context::create();
    let ir = lower("const k = 40; fn main() { let mut x = k; x = x + 2; x }");
    let module = emit_module(&context, &ir).expect("LLVM accepts the module");
    let text = module.print_to_string().to_string();
    assert!(text.contains("@k = constant i64 40"), "{text}");
    assert!(text.contains("alloca i64"), "{text}");
    assert!(text.contains("store i64"), "{text}");
    assert!(module.verify().is_ok());
}

#[test]
fn emit_loop_with_break() {
    let context = Context::create();
    let ir = lower("fn main() { let mut x = 5; loop { x = x - 1; break }; x }");
    let module = emit_module(&context, &ir).expect("LLVM accepts the module");
    let text = module.print_to_string().to_string();
    assert!(text.contains("br label"), "{text}");
    assert!(text.contains("ret i64"), "{text}");
    assert!(module.verify().is_ok());
}

#[test]
fn emit_rejects_open_block() {
    let context = Context::create();
    let ir = IrModule {
        name: "bad".into(),
        globals: vec![],
        functions: vec![IrFunction {
            name: "main".into(),
            slots: vec![],
            blocks: vec![IrBlock { instrs: vec![Instr::Int(1)], terminator: None }],
        }],
    };
    assert_eq!(emit_module(&context, &ir).err(), Some(BackendError::MalformedIr));
}

#[test]
fn emit_rejects_undefined_value() {
    let context = Context::create();
    let ir = IrModule {
        name: "bad".into(),
        globals: vec![],
        functions: vec![IrFunction {
            name: "main".into(),
            slots: vec![],
            blocks: vec![IrBlock {
                instrs: vec![],
                terminator: Some(Terminator::Return(ValueId { block: 0, index: 3 })),
            }],
        }],
    };
    assert_eq!(emit_module(&context, &ir).err(), Some(BackendError::MalformedIr));
}

