//! Lowering of the optimized instruction stream to native code
//! through the Cranelift code-generation framework.
//!
//! One basic block is emitted per instruction, plus one exit block;
//! straight-line instructions jump to the next block, and the loop
//! instructions branch on "current cell is zero" between the
//! fallthrough block and their resolved target block; blocks are
//! sealed once the whole stream is lowered, when every backward
//! branch has declared its predecessor. Every target index is proved
//! in bounds from the optimizer's `resolved` invariant.
//!
//! The code-generation layer is modelled by a ghost trace: every
//! builder operation the library invokes is recorded as one `Op`, and
//! `jit_compile` proves that the recorded trace is exactly
//! `lower(program, capacity)` — the per-instruction lowering is
//! thereby a pure, stated function of the instruction stream. The
//! declared functions of the module are modelled the same way, so the
//! contract also pins the two host-import shapes (`put_char` takes
//! one byte and returns nothing; `get_char` takes nothing and returns
//! one byte) and the exported two-pointer entry.
//!
//! The generated function takes the tape's base address and the
//! address of the head-index slot; the caller supplies a tape of the
//! fixed capacity given at compile time, and the generated code traps
//! (a checked fault, never a silent wild store) if a pointer move
//! would leave that capacity. The two host routines are resolved by
//! symbol when the module is finalized, so a caller whose program
//! performs I/O must have registered both symbols on the
//! `JITBuilder` it supplies; `jit_compile` asks for exactly that.

use vstd::prelude::*;

use crate::command_opt::CommandOpt;
use crate::command_opt::resolved;
use crate::command_opt::resolved_at;
use cranelift::codegen::Context;
use cranelift::codegen::ir::AbiParam;
use cranelift::codegen::ir::Block;
use cranelift::codegen::ir::FuncRef;
use cranelift::codegen::ir::InstBuilder;
use cranelift::codegen::ir::MemFlagsData;
use cranelift::codegen::ir::Signature;
use cranelift::codegen::ir::TrapCode;
use cranelift::codegen::ir::Value;
use cranelift::codegen::ir::condcodes::IntCC;
use cranelift::codegen::ir::types::I8;
use cranelift::frontend::FunctionBuilder;
use cranelift::frontend::FunctionBuilderContext;
use cranelift_jit::JITBuilder;
use cranelift_jit::JITModule;
use cranelift_module::FuncId;
use cranelift_module::Linkage;
use cranelift_module::Module;
use cranelift_module::ModuleError;

verus! {

/// A construction-time failure of the native-code backend.
#[derive(Debug, Clone, Copy, PartialEq, Eq, Structural)]
pub enum CodegenError {
    /// A function was declared with a signature incompatible with an
    /// earlier declaration under the same name.
    SignatureMismatch,
    /// Any other failure of the code-generation backend.
    Backend,
}

#[verifier::external_type_specification]
#[verifier::external_body]
pub struct ExJITBuilder(JITBuilder);

#[verifier::external_type_specification]
#[verifier::external_body]
pub struct ExJITModule(JITModule);

#[verifier::external_type_specification]
#[verifier::external_body]
pub struct ExContext(Context);

#[verifier::external_type_specification]
#[verifier::external_body]
pub struct ExFunctionBuilderContext(FunctionBuilderContext);

#[verifier::external_type_specification]
#[verifier::external_body]
pub struct ExFunctionBuilder<'a>(FunctionBuilder<'a>);

#[verifier::external_type_specification]
#[verifier::external_body]
pub struct ExBlock(Block);

#[verifier::external_type_specification]
#[verifier::external_body]
pub struct ExValue(Value);

#[verifier::external_type_specification]
#[verifier::external_body]
pub struct ExType(cranelift::codegen::ir::Type);

#[verifier::external_type_specification]
#[verifier::external_body]
pub struct ExSignature(Signature);

#[verifier::external_type_specification]
#[verifier::external_body]
pub struct ExFuncId(FuncId);

#[verifier::external_type_specification]
#[verifier::external_body]
pub struct ExFuncRef(FuncRef);

/// The set of names resolvable on a builder: the symbols registered
/// on it, which cranelift-jit consults when it links the finalized
/// module.
pub uninterp spec fn builder_symbols(b: JITBuilder) -> Set<Seq<char>>;

/// Whether the builder's target configuration asks for
/// position-independent code, which cranelift-jit rejects.
pub uninterp spec fn builder_is_pic(b: JITBuilder) -> bool;

/// The symbol table a module carries: the names it can resolve when
/// it links, taken over from its builder.
pub uninterp spec fn module_symbols(m: JITModule) -> Set<Seq<char>>;

/// Whether a module's target ISA was configured for
/// position-independent code, taken over from its builder.
pub uninterp spec fn module_is_pic(m: JITModule) -> bool;

/// The two value types the lowering uses: the target's native
/// pointer-sized integer, and the 8-bit cell type.
pub ghost enum JTy {
    Ptr,
    Byte,
}

/// A symbolic operand: one of the generated function's parameters, or
/// the result of an earlier operation in the trace.
pub ghost enum VRef {
    Arg(int),
    Res(int),
}

/// One recorded code-generation operation. An operation that produces
/// a value is referred to by its own index in the trace.
pub ghost enum Op {
    /// Position construction at the given block.
    SwitchTo(int),
    /// Load a value of the given type from the address in the operand.
    Load(JTy, VRef),
    /// Store the first operand to the address in the second.
    Store(VRef, VRef),
    /// Integer addition.
    Iadd(VRef, VRef),
    /// Integer addition with an immediate.
    IaddImm(VRef, int),
    /// An integer constant of the given type.
    Iconst(JTy, int),
    /// Unsigned comparison of the operand with an immediate.
    IcmpImmULt(VRef, int),
    /// Trap when the operand is zero.
    Trapz(VRef),
    /// Unconditional jump to the given block.
    Jump(int),
    /// Branch to the first block when the operand is nonzero, else to
    /// the second.
    Brif(VRef, int, int),
    /// Call the declared function of the given index with one argument.
    Call1(int, VRef),
    /// Call the declared function of the given index with no argument,
    /// yielding its single result.
    Call0(int),
    /// A bare return.
    Return,
}

/// One declared function of the module under construction.
#[verifier::ext_equal]
pub ghost struct Decl {
    pub name: Seq<char>,
    pub params: Seq<JTy>,
    pub rets: Seq<JTy>,
    pub imported: bool,
}

/// The ghost state of the function under construction: blocks created
/// so far, the block being filled (cleared by each terminator), where
/// the entry parameters were appended, the parameter count of the
/// signature, the recorded operation trace, and the indices of the
/// declared functions that the emitted code calls.
#[verifier::ext_equal]
pub ghost struct GenModel {
    pub blocks: int,
    pub cur: Option<int>,
    pub param_block: Option<int>,
    pub fn_params: int,
    pub trace: Seq<Op>,
    pub called: Set<int>,
}

/// The three declarations `jit_compile` makes, in order: the two host
/// imports and the exported entry over (tape base, head slot).
pub open spec fn jit_decls() -> Seq<Decl> {
    seq![
        Decl {
            name: "put_char"@,
            params: seq![JTy::Byte],
            rets: Seq::empty(),
            imported: true,
        },
        Decl {
            name: "get_char"@,
            params: Seq::empty(),
            rets: seq![JTy::Byte],
            imported: true,
        },
        Decl {
            name: "execute"@,
            params: seq![JTy::Ptr, JTy::Ptr],
            rets: Seq::empty(),
            imported: false,
        },
    ]
}

/// The operations emitted for one instruction whose block is `i` and
/// whose segment starts at trace offset `off`. Every segment begins
/// by switching to the instruction's block and loading the head index
/// from the slot whose address is the second function parameter; the
/// tape base is the first.
pub open spec fn seg(c: CommandOpt, i: int, off: int, capacity: u32) -> Seq<Op> {
    let head = VRef::Res(off + 1);
    match c {
        CommandOpt::ChPtr(d) => seq![
            Op::SwitchTo(i),
            Op::Load(JTy::Ptr, VRef::Arg(1)),
            Op::IaddImm(head, d as int),
            Op::IcmpImmULt(VRef::Res(off + 2), capacity as int),
            Op::Trapz(VRef::Res(off + 3)),
            Op::Store(VRef::Res(off + 2), VRef::Arg(1)),
            Op::Jump(i + 1),
        ],
        CommandOpt::ChVal(v) => seq![
            Op::SwitchTo(i),
            Op::Load(JTy::Ptr, VRef::Arg(1)),
            Op::Iadd(VRef::Arg(0), head),
            Op::Load(JTy::Byte, VRef::Res(off + 2)),
            Op::IaddImm(VRef::Res(off + 3), v as int),
            Op::Store(VRef::Res(off + 4), VRef::Res(off + 2)),
            Op::Jump(i + 1),
        ],
        CommandOpt::PutChar => seq![
            Op::SwitchTo(i),
            Op::Load(JTy::Ptr, VRef::Arg(1)),
            Op::Iadd(VRef::Arg(0), head),
            Op::Load(JTy::Byte, VRef::Res(off + 2)),
            Op::Call1(0, VRef::Res(off + 3)),
            Op::Jump(i + 1),
        ],
        CommandOpt::GetChar => seq![
            Op::SwitchTo(i),
            Op::Load(JTy::Ptr, VRef::Arg(1)),
            Op::Iadd(VRef::Arg(0), head),
            Op::Call0(1),
            Op::Store(VRef::Res(off + 3), VRef::Res(off + 2)),
            Op::Jump(i + 1),
        ],
        CommandOpt::Zero => seq![
            Op::SwitchTo(i),
            Op::Load(JTy::Ptr, VRef::Arg(1)),
            Op::Iadd(VRef::Arg(0), head),
            Op::Iconst(JTy::Byte, 0),
            Op::Store(VRef::Res(off + 3), VRef::Res(off + 2)),
            Op::Jump(i + 1),
        ],
        CommandOpt::LoopForever => seq![
            Op::SwitchTo(i),
            Op::Load(JTy::Ptr, VRef::Arg(1)),
            Op::Iadd(VRef::Arg(0), head),
            Op::Load(JTy::Byte, VRef::Res(off + 2)),
            Op::Brif(VRef::Res(off + 3), i, i + 1),
        ],
        CommandOpt::OpenBr(t) => seq![
            Op::SwitchTo(i),
            Op::Load(JTy::Ptr, VRef::Arg(1)),
            Op::Iadd(VRef::Arg(0), head),
            Op::Load(JTy::Byte, VRef::Res(off + 2)),
            Op::Brif(VRef::Res(off + 3), i + 1, t as int),
        ],
        CommandOpt::CloseBr(t) => seq![
            Op::SwitchTo(i),
            Op::Load(JTy::Ptr, VRef::Arg(1)),
            Op::Iadd(VRef::Arg(0), head),
            Op::Load(JTy::Byte, VRef::Res(off + 2)),
            Op::Brif(VRef::Res(off + 3), t as int, i + 1),
        ],
    }
}

/// The whole trace for the first `k` instructions.
pub open spec fn lower_upto(prg: Seq<CommandOpt>, k: int, capacity: u32) -> Seq<Op>
    decreases k,
{
    if k <= 0 {
        Seq::empty()
    } else {
        let pre = lower_upto(prg, k - 1, capacity);
        pre + seg(prg[k - 1], k - 1, pre.len() as int, capacity)
    }
}

/// The whole trace of the lowering: one segment per instruction, then
/// the exit block with its bare return.
pub open spec fn lower(prg: Seq<CommandOpt>, capacity: u32) -> Seq<Op> {
    lower_upto(prg, prg.len() as int, capacity) + seq![
        Op::SwitchTo(prg.len() as int),
        Op::Return,
    ]
}

/// A value of the generated function, tagged with its symbolic
/// operand reference.
#[derive(Clone, Copy)]
pub struct IrVal {
    pub v: Value,
    pub id: Ghost<VRef>,
}


/// A basic block, tagged with its creation index.
#[derive(Clone, Copy)]
pub struct IrBlock {
    pub b: Block,
    pub id: Ghost<int>,
}


/// A value type of the code generator, tagged with its model type.
#[derive(Clone, Copy)]
pub struct IrType {
    pub t: cranelift::codegen::ir::Type,
    pub ty: Ghost<JTy>,
}


/// A signature under construction, with its modelled parameter and
/// return types.
pub struct IrSig {
    pub s: Signature,
    pub params: Ghost<Seq<JTy>>,
    pub rets: Ghost<Seq<JTy>>,
}

/// A function declared in a module, with the index of its entry in
/// the module's declaration model.
#[derive(Clone, Copy)]
pub struct DeclId {
    pub id: FuncId,
    pub ix: Ghost<int>,
}


/// A declared function made callable from the function under
/// construction, with its declaration index and modelled result
/// count.
#[derive(Clone, Copy)]
pub struct CalleeRef {
    pub f: FuncRef,
    pub ix: Ghost<int>,
    pub nrets: Ghost<int>,
}


/// A JIT module under construction, with its modelled declarations,
/// the symbol names its builder can resolve, the ids it has issued,
/// the declaration indices the compiled code calls, and the recorded
/// trace of its compiled function.
pub struct ModuleGen {
    pub m: JITModule,
    pub decls: Ghost<Seq<Decl>>,
    pub syms: Ghost<Set<Seq<char>>>,
    pub issued: Ghost<Set<FuncId>>,
    pub used: Ghost<Set<int>>,
    pub code: Ghost<Seq<Op>>,
}

/// The function under construction, with its ghost model.
pub struct FuncGen<'a> {
    pub fb: FunctionBuilder<'a>,
    pub model: Ghost<GenModel>,
}

/// Relies on cranelift_jit::JITModule::new, which rejects a builder
/// configured for position-independent code with a release-mode
/// assertion.
#[verifier::external_body]
fn raw_module_new(builder: JITBuilder) -> (r: JITModule)
    requires
        !builder_is_pic(builder),
    ensures
        module_symbols(r) == builder_symbols(builder),
        module_is_pic(r) == builder_is_pic(builder),
{
    JITModule::new(builder)
}

/// Relies on cranelift_module::Module::target_config: the native
/// pointer type of the compilation target.
#[verifier::external_body]
fn raw_pointer_type(m: &ModuleGen) -> cranelift::codegen::ir::Type {
    m.m.target_config().pointer_type()
}

/// The 8-bit integer type of the code generator.
#[verifier::external_body]
fn raw_type_i8() -> cranelift::codegen::ir::Type {
    I8
}

/// Relies on cranelift_module::Module::make_signature: an empty
/// signature in the module's default calling convention.
#[verifier::external_body]
fn raw_make_signature(m: &ModuleGen) -> Signature {
    m.m.make_signature()
}

/// Appends one parameter of the given type to a signature.
#[verifier::external_body]
fn raw_sig_push_param(sig: &mut Signature, t: cranelift::codegen::ir::Type) {
    sig.params.push(AbiParam::new(t));
}

/// Appends one return of the given type to a signature.
#[verifier::external_body]
fn raw_sig_push_return(sig: &mut Signature, t: cranelift::codegen::ir::Type) {
    sig.returns.push(AbiParam::new(t));
}

/// Relies on cranelift_module::Module::declare_function: declares a
/// named function, imported or exported, returning every failure as
/// an error — an incompatible redeclaration as a signature mismatch,
/// anything else as a backend error.
#[verifier::external_body]
fn raw_declare_function(
    m: &mut ModuleGen,
    name: &str,
    import: bool,
    sig: &Signature,
) -> (r: Result<FuncId, CodegenError>)
    ensures
        final(m).decls == old(m).decls,
        final(m).syms == old(m).syms,
        final(m).issued == old(m).issued,
        final(m).used == old(m).used,
        final(m).code == old(m).code,
{
    let linkage = if import {
        Linkage::Import
    } else {
        Linkage::Export
    };
    match m.m.declare_function(name, linkage, sig) {
        Ok(id) => Ok(id),
        Err(ModuleError::IncompatibleSignature(..)) => Err(CodegenError::SignatureMismatch),
        Err(_) => Err(CodegenError::Backend),
    }
}

/// Relies on cranelift_module::Module::make_context: a fresh codegen
/// context for this module.
#[verifier::external_body]
fn raw_make_context(m: &ModuleGen) -> Context {
    m.m.make_context()
}

/// Relies on cranelift::frontend::FunctionBuilderContext::new.
#[verifier::external_body]
fn raw_fb_ctx_new() -> FunctionBuilderContext {
    FunctionBuilderContext::new()
}

/// Relies on cranelift::frontend::FunctionBuilder::new, over the
/// context's function after giving it the signature.
#[verifier::external_body]
fn raw_begin_function<'a>(
    ctx: &'a mut Context,
    fb_ctx: &'a mut FunctionBuilderContext,
    sig: &IrSig,
) -> FunctionBuilder<'a> {
    ctx.func.signature = sig.s.clone();
    FunctionBuilder::new(&mut ctx.func, fb_ctx)
}

/// Relies on FunctionBuilder::create_block.
#[verifier::external_body]
fn raw_create_block(gen: &mut FuncGen) -> (r: Block)
    ensures
        final(gen).model == old(gen).model,
{
    gen.fb.create_block()
}

/// Relies on FunctionBuilder::append_block_params_for_function_params
/// on a created block.
#[verifier::external_body]
fn raw_append_entry_params(gen: &mut FuncGen, blk: &IrBlock)
    requires
        0 <= blk.id@ < old(gen).model@.blocks,
        old(gen).model@.param_block is None,
    ensures
        final(gen).model == old(gen).model,
{
    gen.fb.append_block_params_for_function_params(blk.b);
}

/// Relies on FunctionBuilder::block_params, which panics when the
/// block holds fewer than `i + 1` parameters; the requires admit only
/// the block that was given the function's parameters, within their
/// count.
#[verifier::external_body]
fn raw_block_param(gen: &FuncGen, blk: &IrBlock, i: usize) -> Value
    requires
        gen.model@.param_block == Some(blk.id@),
        (i as int) < gen.model@.fn_params,
{
    gen.fb.block_params(blk.b)[i]
}

/// Relies on cranelift_module::Module::declare_func_in_func, which
/// panics on an id not declared in this module; the requires admit
/// only ids this module issued.
#[verifier::external_body]
fn raw_declare_func_in_func(m: &mut ModuleGen, f: &DeclId, gen: &mut FuncGen) -> (r: FuncRef)
    requires
        old(m).issued@.contains(f.id),
    ensures
        final(m).decls == old(m).decls,
        final(m).syms == old(m).syms,
        final(m).issued == old(m).issued,
        final(m).used == old(m).used,
        final(m).code == old(m).code,
        final(gen).model == old(gen).model,
{
    m.m.declare_func_in_func(f.id, gen.fb.func)
}

/// Relies on FunctionBuilder::switch_to_block on a created block.
#[verifier::external_body]
fn raw_switch_to_block(gen: &mut FuncGen, blk: &IrBlock)
    requires
        0 <= blk.id@ < old(gen).model@.blocks,
    ensures
        final(gen).model == old(gen).model,
{
    gen.fb.switch_to_block(blk.b);
}

/// Relies on the `load` instruction builder; `ins()` panics without a
/// block under construction, which the requires exclude.
#[verifier::external_body]
fn raw_ins_load(gen: &mut FuncGen, t: cranelift::codegen::ir::Type, addr: Value) -> (r: Value)
    requires
        old(gen).model@.cur is Some,
    ensures
        final(gen).model == old(gen).model,
{
    gen.fb.ins().load(t, MemFlagsData::new(), addr, 0)
}

/// Relies on the `store` instruction builder; see `raw_ins_load` on
/// the current-block requirement.
#[verifier::external_body]
fn raw_ins_store(gen: &mut FuncGen, x: Value, addr: Value)
    requires
        old(gen).model@.cur is Some,
    ensures
        final(gen).model == old(gen).model,
{
    gen.fb.ins().store(MemFlagsData::new(), x, addr, 0);
}

/// Relies on the `iadd` instruction builder.
#[verifier::external_body]
fn raw_ins_iadd(gen: &mut FuncGen, x: Value, y: Value) -> (r: Value)
    requires
        old(gen).model@.cur is Some,
    ensures
        final(gen).model == old(gen).model,
{
    gen.fb.ins().iadd(x, y)
}

/// Relies on the `iadd_imm_s` instruction builder, which adds the
/// immediate truncated to the operand's type.
#[verifier::external_body]
fn raw_ins_iadd_imm(gen: &mut FuncGen, x: Value, imm: i64) -> (r: Value)
    requires
        old(gen).model@.cur is Some,
    ensures
        final(gen).model == old(gen).model,
{
    gen.fb.ins().iadd_imm_s(x, imm)
}

/// Relies on the `iconst` instruction builder.
#[verifier::external_body]
fn raw_ins_iconst(gen: &mut FuncGen, t: cranelift::codegen::ir::Type, v: i64) -> (r: Value)
    requires
        old(gen).model@.cur is Some,
    ensures
        final(gen).model == old(gen).model,
{
    gen.fb.ins().iconst(t, v)
}

/// Relies on the `icmp_imm_u` instruction builder with the unsigned
/// less-than condition.
#[verifier::external_body]
fn raw_ins_icmp_imm_ult(gen: &mut FuncGen, x: Value, imm: i64) -> (r: Value)
    requires
        old(gen).model@.cur is Some,
    ensures
        final(gen).model == old(gen).model,
{
    gen.fb.ins().icmp_imm_u(IntCC::UnsignedLessThan, x, imm)
}

/// Relies on the `trapz` instruction builder, reported as an
/// out-of-bounds access.
#[verifier::external_body]
fn raw_ins_trapz(gen: &mut FuncGen, cond: Value)
    requires
        old(gen).model@.cur is Some,
    ensures
        final(gen).model == old(gen).model,
{
    gen.fb.ins().trapz(cond, TrapCode::HEAP_OUT_OF_BOUNDS);
}

/// Relies on the `jump` instruction builder to a created block.
#[verifier::external_body]
fn raw_ins_jump(gen: &mut FuncGen, blk: &IrBlock)
    requires
        old(gen).model@.cur is Some,
        0 <= blk.id@ < old(gen).model@.blocks,
    ensures
        final(gen).model == old(gen).model,
{
    gen.fb.ins().jump(blk.b, &[]);
}

/// Relies on the `brif` instruction builder to two created blocks.
#[verifier::external_body]
fn raw_ins_brif(gen: &mut FuncGen, cond: Value, nonzero: &IrBlock, zero: &IrBlock)
    requires
        old(gen).model@.cur is Some,
        0 <= nonzero.id@ < old(gen).model@.blocks,
        0 <= zero.id@ < old(gen).model@.blocks,
    ensures
        final(gen).model == old(gen).model,
{
    gen.fb.ins().brif(cond, nonzero.b, &[], zero.b, &[]);
}

/// Relies on the `call` instruction builder with one argument and no
/// result.
#[verifier::external_body]
fn raw_ins_call1(gen: &mut FuncGen, f: &CalleeRef, arg: Value)
    requires
        old(gen).model@.cur is Some,
    ensures
        final(gen).model == old(gen).model,
{
    gen.fb.ins().call(f.f, &[arg]);
}

/// Relies on the `call` instruction builder and on
/// FunctionBuilder::inst_results, whose first entry exists exactly
/// when the callee was declared with a result; the requires admit
/// only such callees.
#[verifier::external_body]
fn raw_ins_call0(gen: &mut FuncGen, f: &CalleeRef) -> (r: Value)
    requires
        old(gen).model@.cur is Some,
        f.nrets@ >= 1,
    ensures
        final(gen).model == old(gen).model,
{
    let call = gen.fb.ins().call(f.f, &[]);
    gen.fb.inst_results(call)[0]
}

/// Relies on the `return_` instruction builder.
#[verifier::external_body]
fn raw_ins_return(gen: &mut FuncGen)
    requires
        old(gen).model@.cur is Some,
    ensures
        final(gen).model == old(gen).model,
{
    gen.fb.ins().return_(&[]);
}

/// Relies on FunctionBuilder::seal_all_blocks: every block's
/// predecessors are declared known. A block that is the target of a
/// backward branch gains its last predecessor only once the matching
/// close bracket has been emitted, so sealing happens after the whole
/// stream is lowered.
#[verifier::external_body]
fn raw_seal_all_blocks(gen: &mut FuncGen)
    ensures
        final(gen).model == old(gen).model,
{
    gen.fb.seal_all_blocks();
}

/// Relies on FunctionBuilder::finalize: declares the function under
/// construction complete.
#[verifier::external_body]
fn raw_builder_finalize(gen: FuncGen, m: &ModuleGen) {
    let config = m.m.target_config();
    gen.fb.finalize(config);
}

/// Relies on cranelift_module::Module::define_function, which panics
/// on an id not declared in this module; the requires admit only ids
/// this module issued. Every compilation failure is returned as an
/// error.
#[verifier::external_body]
fn raw_define_function(m: &mut ModuleGen, f: &DeclId, ctx: &mut Context) -> (r: Result<
    (),
    CodegenError,
>)
    requires
        old(m).issued@.contains(f.id),
    ensures
        final(m).decls == old(m).decls,
        final(m).syms == old(m).syms,
        final(m).issued == old(m).issued,
        final(m).used == old(m).used,
        final(m).code == old(m).code,
{
    match m.m.define_function(f.id, ctx) {
        Ok(()) => Ok(()),
        Err(ModuleError::IncompatibleSignature(..)) => Err(CodegenError::SignatureMismatch),
        Err(_) => Err(CodegenError::Backend),
    }
}

/// Relies on cranelift_module::Module::clear_context.
#[verifier::external_body]
fn raw_clear_context(m: &ModuleGen, ctx: &mut Context) {
    m.m.clear_context(ctx);
}

/// Relies on cranelift_jit::JITModule::finalize_definitions, which
/// performs relocations and panics on a referenced import whose
/// symbol the builder cannot resolve; the requires admit only modules
/// whose called imports are all resolvable. Every returned failure
/// becomes an error.
#[verifier::external_body]
fn raw_finalize_definitions(m: &mut ModuleGen) -> (r: Result<(), CodegenError>)
    requires
        forall|ix: int|
            old(m).used@.contains(ix) && 0 <= ix < old(m).decls@.len() && old(
                m,
            ).decls@[ix].imported ==> old(m).syms@.contains(#[trigger] old(m).decls@[ix].name),
    ensures
        final(m).decls == old(m).decls,
        final(m).syms == old(m).syms,
        final(m).issued == old(m).issued,
        final(m).used == old(m).used,
        final(m).code == old(m).code,
{
    match m.m.finalize_definitions() {
        Ok(()) => Ok(()),
        Err(ModuleError::IncompatibleSignature(..)) => Err(CodegenError::SignatureMismatch),
        Err(_) => Err(CodegenError::Backend),
    }
}

impl ModuleGen {
    /// A fresh module over the given builder; the model starts empty,
    /// and the resolvable names are those registered on the builder.
    pub fn new(builder: JITBuilder) -> (r: ModuleGen)
        requires
            !builder_is_pic(builder),
        ensures
            r.decls@ == Seq::<Decl>::empty(),
            r.syms@ == builder_symbols(builder),
            r.issued@ == Set::<FuncId>::empty(),
            r.used@ == Set::<int>::empty(),
            r.code@ == Seq::<Op>::empty(),
    {
        let ghost s = builder_symbols(builder);
        ModuleGen {
            m: raw_module_new(builder),
            decls: Ghost(Seq::empty()),
            syms: Ghost(s),
            issued: Ghost(Set::empty()),
            used: Ghost(Set::empty()),
            code: Ghost(Seq::empty()),
        }
    }

    /// The native pointer type of the compilation target.
    pub fn pointer_type(&self) -> (r: IrType)
        ensures
            r.ty@ == JTy::Ptr,
    {
        IrType { t: raw_pointer_type(self), ty: Ghost(JTy::Ptr) }
    }

    /// Declare a named function with the given signature, imported or
    /// exported; on success the model gains its declaration at the
    /// returned index.
    pub fn declare_function(&mut self, name: &str, import: bool, sig: &IrSig) -> (r: Result<
        DeclId,
        CodegenError,
    >)
        ensures
            match r {
                Ok(f) => {
                    &&& final(self).decls@ == old(self).decls@.push(
                        Decl {
                            name: name@,
                            params: sig.params@,
                            rets: sig.rets@,
                            imported: import,
                        },
                    )
                    &&& f.ix@ == old(self).decls@.len() as int
                    &&& final(self).issued@.contains(f.id)
                },
                Err(_) => final(self).decls@ == old(self).decls@,
            },
            old(self).issued@.subset_of(final(self).issued@),
            final(self).syms@ == old(self).syms@,
            final(self).used@ == old(self).used@,
            final(self).code@ == old(self).code@,
    {
        let ghost d0 = self.decls@;
        let ghost i0 = self.issued@;
        match raw_declare_function(self, name, import, &sig.s) {
            Ok(id) => {
                self.decls = Ghost(
                    d0.push(
                        Decl {
                            name: name@,
                            params: sig.params@,
                            rets: sig.rets@,
                            imported: import,
                        },
                    ),
                );
                self.issued = Ghost(i0.insert(id));
                Ok(DeclId { id, ix: Ghost(d0.len() as int) })
            },
            Err(e) => Err(e),
        }
    }

    /// Make a declared function callable from the function under
    /// construction.
    pub fn declare_func_in_func(&mut self, f: &DeclId, gen: &mut FuncGen) -> (r: CalleeRef)
        requires
            old(self).issued@.contains(f.id),
            0 <= f.ix@ < old(self).decls@.len(),
        ensures
            r.ix@ == f.ix@,
            r.nrets@ == old(self).decls@[f.ix@].rets.len() as int,
            final(self).decls@ == old(self).decls@,
            final(self).syms@ == old(self).syms@,
            final(self).issued@ == old(self).issued@,
            final(self).used@ == old(self).used@,
            final(self).code@ == old(self).code@,
            final(gen).model == old(gen).model,
    {
        let fr = raw_declare_func_in_func(self, f, gen);
        CalleeRef { f: fr, ix: f.ix, nrets: Ghost(self.decls@[f.ix@].rets.len() as int) }
    }

    /// The underlying module, for extracting finalized code.
    pub fn module(&self) -> &JITModule {
        &self.m
    }
}

/// The 8-bit cell type of the code generator.
pub fn type_i8() -> (r: IrType)
    ensures
        r.ty@ == JTy::Byte,
{
    IrType { t: raw_type_i8(), ty: Ghost(JTy::Byte) }
}

impl IrSig {
    /// An empty signature in the module's calling convention.
    pub fn new(m: &ModuleGen) -> (r: IrSig)
        ensures
            r.params@ == Seq::<JTy>::empty(),
            r.rets@ == Seq::<JTy>::empty(),
    {
        IrSig { s: raw_make_signature(m), params: Ghost(Seq::empty()), rets: Ghost(Seq::empty()) }
    }

    /// Append one parameter.
    pub fn push_param(&mut self, t: IrType)
        ensures
            final(self).params@ == old(self).params@.push(t.ty@),
            final(self).rets@ == old(self).rets@,
    {
        raw_sig_push_param(&mut self.s, t.t);
        self.params = Ghost(self.params@.push(t.ty@));
    }

    /// Append one return.
    pub fn push_return(&mut self, t: IrType)
        ensures
            final(self).rets@ == old(self).rets@.push(t.ty@),
            final(self).params@ == old(self).params@,
    {
        raw_sig_push_return(&mut self.s, t.t);
        self.rets = Ghost(self.rets@.push(t.ty@));
    }
}

impl<'a> FuncGen<'a> {
    /// Begin building the context's function under the given
    /// signature; the model starts empty with the signature's
    /// parameter count.
    pub fn begin(ctx: &'a mut Context, fb_ctx: &'a mut FunctionBuilderContext, sig: &IrSig) -> (r:
        FuncGen<'a>)
        ensures
            r.model@ == (GenModel {
                blocks: 0,
                cur: Option::None,
                param_block: Option::None,
                fn_params: sig.params@.len() as int,
                trace: Seq::empty(),
                called: Set::empty(),
            }),
    {
        FuncGen {
            fb: raw_begin_function(ctx, fb_ctx, sig),
            model: Ghost(
                GenModel {
                    blocks: 0,
                    cur: Option::None,
                    param_block: Option::None,
                    fn_params: sig.params@.len() as int,
                    trace: Seq::empty(),
                    called: Set::empty(),
                },
            ),
        }
    }

    /// Create one basic block, numbered in creation order.
    pub fn create_block(&mut self) -> (r: IrBlock)
        ensures
            r.id@ == old(self).model@.blocks,
            final(self).model@ == (GenModel {
                blocks: old(self).model@.blocks + 1,
                ..old(self).model@
            }),
    {
        let b = raw_create_block(self);
        let ghost m = self.model@;
        self.model = Ghost(GenModel { blocks: m.blocks + 1, ..m });
        IrBlock { b, id: Ghost(m.blocks) }
    }

    /// Give the entry block the function's parameters.
    pub fn append_entry_params(&mut self, blk: IrBlock)
        requires
            0 <= blk.id@ < old(self).model@.blocks,
            old(self).model@.param_block is None,
        ensures
            final(self).model@ == (GenModel {
                param_block: Some(blk.id@),
                ..old(self).model@
            }),
    {
        raw_append_entry_params(self, &blk);
        let ghost m = self.model@;
        self.model = Ghost(GenModel { param_block: Some(blk.id@), ..m });
    }

    /// The `i`th function parameter, read from the entry block.
    pub fn block_param(&self, blk: IrBlock, i: usize) -> (r: IrVal)
        requires
            self.model@.param_block == Some(blk.id@),
            (i as int) < self.model@.fn_params,
        ensures
            r.id@ == VRef::Arg(i as int),
    {
        IrVal { v: raw_block_param(self, &blk, i), id: Ghost(VRef::Arg(i as int)) }
    }

    /// Switch construction to the given block.
    pub fn switch_to_block(&mut self, blk: IrBlock)
        requires
            0 <= blk.id@ < old(self).model@.blocks,
        ensures
            final(self).model@ == (GenModel {
                cur: Some(blk.id@),
                trace: old(self).model@.trace.push(Op::SwitchTo(blk.id@)),
                ..old(self).model@
            }),
    {
        raw_switch_to_block(self, &blk);
        let ghost m = self.model@;
        self.model = Ghost(
            GenModel { cur: Some(blk.id@), trace: m.trace.push(Op::SwitchTo(blk.id@)), ..m },
        );
    }

    /// Emit a load.
    pub fn ins_load(&mut self, t: IrType, addr: IrVal) -> (r: IrVal)
        requires
            old(self).model@.cur is Some,
        ensures
            final(self).model@ == (GenModel {
                trace: old(self).model@.trace.push(Op::Load(t.ty@, addr.id@)),
                ..old(self).model@
            }),
            r.id@ == VRef::Res(old(self).model@.trace.len() as int),
    {
        let v = raw_ins_load(self, t.t, addr.v);
        let ghost m = self.model@;
        self.model = Ghost(GenModel { trace: m.trace.push(Op::Load(t.ty@, addr.id@)), ..m });
        IrVal { v, id: Ghost(VRef::Res(m.trace.len() as int)) }
    }

    /// Emit a store.
    pub fn ins_store(&mut self, x: IrVal, addr: IrVal)
        requires
            old(self).model@.cur is Some,
        ensures
            final(self).model@ == (GenModel {
                trace: old(self).model@.trace.push(Op::Store(x.id@, addr.id@)),
                ..old(self).model@
            }),
    {
        raw_ins_store(self, x.v, addr.v);
        let ghost m = self.model@;
        self.model = Ghost(GenModel { trace: m.trace.push(Op::Store(x.id@, addr.id@)), ..m });
    }

    /// Emit an integer addition.
    pub fn ins_iadd(&mut self, x: IrVal, y: IrVal) -> (r: IrVal)
        requires
            old(self).model@.cur is Some,
        ensures
            final(self).model@ == (GenModel {
                trace: old(self).model@.trace.push(Op::Iadd(x.id@, y.id@)),
                ..old(self).model@
            }),
            r.id@ == VRef::Res(old(self).model@.trace.len() as int),
    {
        let v = raw_ins_iadd(self, x.v, y.v);
        let ghost m = self.model@;
        self.model = Ghost(GenModel { trace: m.trace.push(Op::Iadd(x.id@, y.id@)), ..m });
        IrVal { v, id: Ghost(VRef::Res(m.trace.len() as int)) }
    }

    /// Emit an integer addition with an immediate.
    pub fn ins_iadd_imm(&mut self, x: IrVal, imm: i64) -> (r: IrVal)
        requires
            old(self).model@.cur is Some,
        ensures
            final(self).model@ == (GenModel {
                trace: old(self).model@.trace.push(Op::IaddImm(x.id@, imm as int)),
                ..old(self).model@
            }),
            r.id@ == VRef::Res(old(self).model@.trace.len() as int),
    {
        let v = raw_ins_iadd_imm(self, x.v, imm);
        let ghost m = self.model@;
        self.model = Ghost(GenModel { trace: m.trace.push(Op::IaddImm(x.id@, imm as int)), ..m });
        IrVal { v, id: Ghost(VRef::Res(m.trace.len() as int)) }
    }

    /// Emit an integer constant.
    pub fn ins_iconst(&mut self, t: IrType, v: i64) -> (r: IrVal)
        requires
            old(self).model@.cur is Some,
        ensures
            final(self).model@ == (GenModel {
                trace: old(self).model@.trace.push(Op::Iconst(t.ty@, v as int)),
                ..old(self).model@
            }),
            r.id@ == VRef::Res(old(self).model@.trace.len() as int),
    {
        let val = raw_ins_iconst(self, t.t, v);
        let ghost m = self.model@;
        self.model = Ghost(GenModel { trace: m.trace.push(Op::Iconst(t.ty@, v as int)), ..m });
        IrVal { v: val, id: Ghost(VRef::Res(m.trace.len() as int)) }
    }

    /// Emit an unsigned less-than comparison with an immediate.
    pub fn ins_icmp_imm_ult(&mut self, x: IrVal, imm: i64) -> (r: IrVal)
        requires
            old(self).model@.cur is Some,
        ensures
            final(self).model@ == (GenModel {
                trace: old(self).model@.trace.push(Op::IcmpImmULt(x.id@, imm as int)),
                ..old(self).model@
            }),
            r.id@ == VRef::Res(old(self).model@.trace.len() as int),
    {
        let v = raw_ins_icmp_imm_ult(self, x.v, imm);
        let ghost m = self.model@;
        self.model = Ghost(
            GenModel { trace: m.trace.push(Op::IcmpImmULt(x.id@, imm as int)), ..m },
        );
        IrVal { v, id: Ghost(VRef::Res(m.trace.len() as int)) }
    }

    /// Emit a trap taken when the operand is zero.
    pub fn ins_trapz(&mut self, cond: IrVal)
        requires
            old(self).model@.cur is Some,
        ensures
            final(self).model@ == (GenModel {
                trace: old(self).model@.trace.push(Op::Trapz(cond.id@)),
                ..old(self).model@
            }),
    {
        raw_ins_trapz(self, cond.v);
        let ghost m = self.model@;
        self.model = Ghost(GenModel { trace: m.trace.push(Op::Trapz(cond.id@)), ..m });
    }

    /// Emit an unconditional jump; the current block is complete.
    pub fn ins_jump(&mut self, blk: IrBlock)
        requires
            old(self).model@.cur is Some,
            0 <= blk.id@ < old(self).model@.blocks,
        ensures
            final(self).model@ == (GenModel {
                cur: Option::None,
                trace: old(self).model@.trace.push(Op::Jump(blk.id@)),
                ..old(self).model@
            }),
    {
        raw_ins_jump(self, &blk);
        let ghost m = self.model@;
        self.model = Ghost(
            GenModel { cur: Option::None, trace: m.trace.push(Op::Jump(blk.id@)), ..m },
        );
    }

    /// Emit a conditional branch; the current block is complete.
    pub fn ins_brif(&mut self, cond: IrVal, nonzero: IrBlock, zero: IrBlock)
        requires
            old(self).model@.cur is Some,
            0 <= nonzero.id@ < old(self).model@.blocks,
            0 <= zero.id@ < old(self).model@.blocks,
        ensures
            final(self).model@ == (GenModel {
                cur: Option::None,
                trace: old(self).model@.trace.push(
                    Op::Brif(cond.id@, nonzero.id@, zero.id@),
                ),
                ..old(self).model@
            }),
    {
        raw_ins_brif(self, cond.v, &nonzero, &zero);
        let ghost m = self.model@;
        self.model = Ghost(
            GenModel {
                cur: Option::None,
                trace: m.trace.push(Op::Brif(cond.id@, nonzero.id@, zero.id@)),
                ..m
            },
        );
    }

    /// Emit a call with one argument and no result.
    pub fn ins_call1(&mut self, f: &CalleeRef, arg: IrVal)
        requires
            old(self).model@.cur is Some,
        ensures
            final(self).model@ == (GenModel {
                trace: old(self).model@.trace.push(Op::Call1(f.ix@, arg.id@)),
                called: old(self).model@.called.insert(f.ix@),
                ..old(self).model@
            }),
    {
        raw_ins_call1(self, f, arg.v);
        let ghost m = self.model@;
        self.model = Ghost(
            GenModel {
                trace: m.trace.push(Op::Call1(f.ix@, arg.id@)),
                called: m.called.insert(f.ix@),
                ..m
            },
        );
    }

    /// Emit a call with no argument, yielding its single result.
    pub fn ins_call0(&mut self, f: &CalleeRef) -> (r: IrVal)
        requires
            old(self).model@.cur is Some,
            f.nrets@ >= 1,
        ensures
            final(self).model@ == (GenModel {
                trace: old(self).model@.trace.push(Op::Call0(f.ix@)),
                called: old(self).model@.called.insert(f.ix@),
                ..old(self).model@
            }),
            r.id@ == VRef::Res(old(self).model@.trace.len() as int),
    {
        let v = raw_ins_call0(self, f);
        let ghost m = self.model@;
        self.model = Ghost(
            GenModel { trace: m.trace.push(Op::Call0(f.ix@)), called: m.called.insert(f.ix@), ..m },
        );
        IrVal { v, id: Ghost(VRef::Res(m.trace.len() as int)) }
    }

    /// Emit a bare return; the current block is complete.
    pub fn ins_return(&mut self)
        requires
            old(self).model@.cur is Some,
        ensures
            final(self).model@ == (GenModel {
                cur: Option::None,
                trace: old(self).model@.trace.push(Op::Return),
                ..old(self).model@
            }),
    {
        raw_ins_return(self);
        let ghost m = self.model@;
        self.model = Ghost(GenModel { cur: Option::None, trace: m.trace.push(Op::Return), ..m });
    }

    /// Declare every block's predecessors known.
    pub fn seal_all_blocks(&mut self)
        ensures
            final(self).model@ == old(self).model@,
    {
        raw_seal_all_blocks(self);
    }
}

/// Compile a fully resolved instruction stream to native code.
///
/// On success the returned module holds a finalized exported function
/// named `execute` under the returned declaration, taking the tape's
/// base address and the address of the head-index slot; the
/// declarations are exactly `jit_decls()` — the two host imports with
/// their one-byte shapes, and the exported two-pointer entry — and
/// the recorded builder trace is exactly `lower(program, capacity)`.
/// The caller owns the module and must keep it alive for as long as
/// the extracted function pointer is invoked; the tape it supplies
/// must hold `capacity` cells with the head slot starting below
/// `capacity`.
pub fn jit_compile(program: &Vec<CommandOpt>, builder: JITBuilder, capacity: u32) -> (r: Result<
    (ModuleGen, DeclId),
    CodegenError,
>)
    requires
        resolved(program@),
        capacity >= 1,
        !builder_is_pic(builder),
        (exists|k: int| 0 <= k < program@.len() && program@[k] == CommandOpt::PutChar)
            ==> builder_symbols(builder).contains("put_char"@),
        (exists|k: int| 0 <= k < program@.len() && program@[k] == CommandOpt::GetChar)
            ==> builder_symbols(builder).contains("get_char"@),
    ensures
        r matches Ok(p) ==> p.0.decls@ == jit_decls() && p.1.ix@ == 2 && p.0.code@ == lower(
            program@,
            capacity,
        ),
{
    let ghost syms0 = builder_symbols(builder);
    let mut module = ModuleGen::new(builder);
    let ptr_type = module.pointer_type();
    let i8t = type_i8();

    let mut sig = IrSig::new(&module);
    sig.push_param(ptr_type);
    sig.push_param(ptr_type);

    let mut put_sig = IrSig::new(&module);
    put_sig.push_param(i8t);
    let put_id = match module.declare_function("put_char", true, &put_sig) {
        Ok(id) => id,
        Err(e) => {
            return Err(e);
        },
    };

    let mut get_sig = IrSig::new(&module);
    get_sig.push_return(i8t);
    let get_id = match module.declare_function("get_char", true, &get_sig) {
        Ok(id) => id,
        Err(e) => {
            return Err(e);
        },
    };

    let func_id = match module.declare_function("execute", false, &sig) {
        Ok(id) => id,
        Err(e) => {
            return Err(e);
        },
    };
    proof {
        assert(module.decls@ =~~= jit_decls());
    }

    let mut ctx = raw_make_context(&module);
    let mut fb_ctx = raw_fb_ctx_new();
    let mut gen = FuncGen::begin(&mut ctx, &mut fb_ctx, &sig);

    let n = program.len();
    let mut blocks: Vec<IrBlock> = Vec::new();
    let mut i: usize = 0;
    #[verifier::loop_isolation(false)]
    while i < n
        invariant
            i <= n,
            blocks@.len() == i,
            forall|k: int| 0 <= k < i ==> (#[trigger] blocks@[k]).id@ == k,
            gen.model@ == (GenModel { blocks: i as int, ..FuncGen::initial_model(&sig) }),
        decreases n - i,
    {
        blocks.push(gen.create_block());
        i = i + 1;
    }
    blocks.push(gen.create_block());

    gen.append_entry_params(blocks[0]);
    let mem_start = gen.block_param(blocks[0], 0);
    let head_slot = gen.block_param(blocks[0], 1);

    let put_ref = module.declare_func_in_func(&put_id, &mut gen);
    let get_ref = module.declare_func_in_func(&get_id, &mut gen);

    let mut i: usize = 0;
    #[verifier::loop_isolation(false)]
    while i < n
        invariant
            i <= n,
            gen.model@.blocks == n + 1,
            gen.model@.fn_params == 2,
            gen.model@.param_block == Some(0int),
            gen.model@.cur is None,
            gen.model@.trace == lower_upto(program@, i as int, capacity),
            gen.model@.called.subset_of(set![0int, 1int]),
            gen.model@.called.contains(0int) ==> (exists|k: int|
                0 <= k < program@.len() && program@[k] == CommandOpt::PutChar),
            gen.model@.called.contains(1int) ==> (exists|k: int|
                0 <= k < program@.len() && program@[k] == CommandOpt::GetChar),
        decreases n - i,
    {
        proof {
            assert(resolved_at(program@, i as int));
        }
        let ghost t0 = gen.model@.trace;
        gen.switch_to_block(blocks[i]);
        let head = gen.ins_load(ptr_type, head_slot);
        match program[i] {
            CommandOpt::ChPtr(delta) => {
                let moved = gen.ins_iadd_imm(head, delta as i64);
                let in_range = gen.ins_icmp_imm_ult(moved, capacity as i64);
                gen.ins_trapz(in_range);
                gen.ins_store(moved, head_slot);
                gen.ins_jump(blocks[i + 1]);
            },
            CommandOpt::ChVal(delta) => {
                let cell = gen.ins_iadd(mem_start, head);
                let old_val = gen.ins_load(i8t, cell);
                let new_val = gen.ins_iadd_imm(old_val, delta as i64);
                gen.ins_store(new_val, cell);
                gen.ins_jump(blocks[i + 1]);
            },
            CommandOpt::PutChar => {
                let cell = gen.ins_iadd(mem_start, head);
                let cur = gen.ins_load(i8t, cell);
                gen.ins_call1(&put_ref, cur);
                gen.ins_jump(blocks[i + 1]);
            },
            CommandOpt::GetChar => {
                let cell = gen.ins_iadd(mem_start, head);
                let got = gen.ins_call0(&get_ref);
                gen.ins_store(got, cell);
                gen.ins_jump(blocks[i + 1]);
            },
            CommandOpt::Zero => {
                let cell = gen.ins_iadd(mem_start, head);
                let zero = gen.ins_iconst(i8t, 0);
                gen.ins_store(zero, cell);
                gen.ins_jump(blocks[i + 1]);
            },
            CommandOpt::LoopForever => {
                let cell = gen.ins_iadd(mem_start, head);
                let cur = gen.ins_load(i8t, cell);
                gen.ins_brif(cur, blocks[i], blocks[i + 1]);
            },
            CommandOpt::OpenBr(target) => {
                let cell = gen.ins_iadd(mem_start, head);
                let cur = gen.ins_load(i8t, cell);
                gen.ins_brif(cur, blocks[i + 1], blocks[target]);
            },
            CommandOpt::CloseBr(target) => {
                let cell = gen.ins_iadd(mem_start, head);
                let cur = gen.ins_load(i8t, cell);
                gen.ins_brif(cur, blocks[target], blocks[i + 1]);
            },
        }
        proof {
            assert(gen.model@.trace =~= t0 + seg(
                program@[i as int],
                i as int,
                t0.len() as int,
                capacity,
            ));
            assert(gen.model@.trace =~= lower_upto(program@, i as int + 1, capacity));
        }
        i = i + 1;
    }

    gen.switch_to_block(blocks[n]);
    gen.ins_return();
    gen.seal_all_blocks();
    proof {
        assert(gen.model@.trace =~= lower(program@, capacity));
    }
    let ghost trace = gen.model@.trace;
    let ghost called = gen.model@.called;
    raw_builder_finalize(gen, &module);

    match raw_define_function(&mut module, &func_id, &mut ctx) {
        Ok(()) => {},
        Err(e) => {
            return Err(e);
        },
    }
    raw_clear_context(&module, &mut ctx);

    module.code = Ghost(trace);
    module.used = Ghost(called);
    proof {
        assert forall|ix: int|
            module.used@.contains(ix) && 0 <= ix < module.decls@.len()
                && module.decls@[ix].imported implies module.syms@.contains(
            #[trigger] module.decls@[ix].name,
        ) by {
            assert(set![0int, 1int].contains(ix));
        };
    }
    match raw_finalize_definitions(&mut module) {
        Ok(()) => {},
        Err(e) => {
            return Err(e);
        },
    }
    Ok((module, func_id))
}

impl<'a> FuncGen<'a> {
    /// The model a fresh builder starts from, under the given
    /// signature.
    pub open spec fn initial_model(sig: &IrSig) -> GenModel {
        GenModel {
            blocks: 0,
            cur: Option::None,
            param_block: Option::None,
            fn_params: sig.params@.len() as int,
            trace: Seq::empty(),
            called: Set::empty(),
        }
    }
}

} // verus!
