use cranelift_jit::JITBuilder;
use cranelift_module::default_libcall_names;
use tapevm::command_opt::parse;
use tapevm::jit::jit_compile;

// Programs without input/output instructions reference neither host
// symbol, so the module links without any symbol registration; the
// extraction and invocation of the compiled function need the host
// routines and live outside the library.

#[test]
fn compiles_copy_loop() {
    let prg = parse("+[>+<-]").unwrap();
    let builder = JITBuilder::new(default_libcall_names()).unwrap();
    assert!(jit_compile(&prg, builder, 30_000).is_ok());
}

#[test]
fn compiles_empty_program() {
    let prg = parse("").unwrap();
    let builder = JITBuilder::new(default_libcall_names()).unwrap();
    assert!(jit_compile(&prg, builder, 30_000).is_ok());
}

#[test]
fn compiles_every_instruction_kind() {
    // folded runs, both idioms, and a real loop in one stream
    let prg = parse("++>--[+]<[++][>+<-]").unwrap();
    let builder = JITBuilder::new(default_libcall_names()).unwrap();
    assert!(jit_compile(&prg, builder, 30_000).is_ok());
}
