use roblox_rs::describe::Describe;
use roblox_rs::emitter::InstructionContext;
use roblox_rs::instructions::exports::PullMemory;
use roblox_rs::instructions::imports::WriteMemory;
use roblox_rs::instructions::luau_to_rust::{
    LuauBooleanToRust, LuauExternRefToRust, LuauStringToRust, LuauToRust,
};
use roblox_rs::instructions::rust_to_lua::{
    RustBooleanToLuau, RustOwnedStringToLuau, RustRefExternRefToLuau, RustRefStringToLuau,
    RustSliceToLuau, RustToLuau, RustVectorToLuau,
};
use roblox_rs::shared_context::SharedIntrinsic;

fn ctx_with(intrinsics: Vec<(&str, &str)>) -> InstructionContext {
    InstructionContext::new(
        intrinsics
            .into_iter()
            .map(|(n, e)| SharedIntrinsic { name: n.to_string(), export_name: e.to_string() })
            .collect(),
    )
}

#[test]
fn boolean_into_guest() {
    let mut ctx = ctx_with(vec![]);
    ctx.push("flag".to_string());
    LuauBooleanToRust.render(&mut ctx);
    assert_eq!(ctx.pop(), "if flag then 1 else 0");
    assert_eq!(ctx.out.out, "");
}

#[test]
fn boolean_into_script() {
    let mut ctx = ctx_with(vec![]);
    ctx.push("slot".to_string());
    RustBooleanToLuau.render(&mut ctx);
    assert_eq!(ctx.pop(), "slot ~= 0");
}

#[test]
fn passthrough_leaves_the_stack_alone() {
    let mut ctx = ctx_with(vec![]);
    ctx.push("v".to_string());
    LuauToRust { ty: &Describe::F64 }.render(&mut ctx);
    assert_eq!(ctx.inputs, vec!["v".to_string()]);
    RustToLuau { ty: &Describe::F64 }.render(&mut ctx);
    assert_eq!(ctx.inputs, vec!["v".to_string()]);
    assert_eq!(ctx.out.out, "");
}

#[test]
fn extern_ref_into_guest_registers_a_handle() {
    let mut ctx = ctx_with(vec![]);
    ctx.push("value".to_string());
    LuauExternRefToRust.render(&mut ctx);
    assert_eq!(ctx.pop(), "heap_0");
    assert_eq!(
        ctx.out.out,
        "HEAP_ID += 1\nlocal heap_0 = HEAP_ID\nHEAP[HEAP_ID] = value\n"
    );
}

#[test]
fn borrowed_extern_ref_reads_without_clearing() {
    let mut ctx = ctx_with(vec![]);
    ctx.push("7".to_string());
    RustRefExternRefToLuau.render(&mut ctx);
    assert_eq!(ctx.pop(), "HEAP[7]");
    assert_eq!(ctx.out.out, "");
}

#[test]
fn string_into_guest_allocates_and_writes() {
    let mut ctx = ctx_with(vec![("alloc", "A_SYM")]);
    ctx.push("s".to_string());
    LuauStringToRust.render(&mut ctx);
    assert_eq!(ctx.pop(), "#s");
    assert_eq!(ctx.pop(), "string_0");
    assert_eq!(
        ctx.out.out,
        "local string_0 = A_SYM(#s, 1)\nbuffer.writestring(MEMORY.data, string_0, s)\n"
    );
    assert_eq!(ctx.intrinsics.used, vec!["alloc".to_string()]);
}

#[test]
fn borrowed_string_reads_without_freeing() {
    let mut ctx = ctx_with(vec![]);
    ctx.push("p".to_string());
    ctx.push("n".to_string());
    RustRefStringToLuau.render(&mut ctx);
    assert_eq!(ctx.pop(), "buffer.readstring(MEMORY.data, p, n)");
    assert_eq!(ctx.out.out, "");
}

#[test]
fn owned_string_frees_what_it_read() {
    let mut ctx = ctx_with(vec![("free", "F_SYM")]);
    ctx.push("p".to_string());
    ctx.push("n".to_string());
    RustOwnedStringToLuau.render(&mut ctx);
    assert_eq!(ctx.pop(), "string_0");
    assert_eq!(
        ctx.out.out,
        "local string_0 = buffer.readstring(MEMORY.data, p, n)\nWASM.func_list.F_SYM(p, n, 1)\n"
    );
}

#[test]
fn slice_reads_each_primitive() {
    let mut ctx = ctx_with(vec![]);
    ctx.push("p".to_string());
    ctx.push("n".to_string());
    RustSliceToLuau { ty: &Describe::U16 }.render(&mut ctx);
    assert_eq!(ctx.pop(), "slice_0");
    assert_eq!(
        ctx.out.out,
        "local slice_0 = table.create(n)\nfor i = 1, n do\n\ttable.insert(slice_0, buffer.readu16(MEMORY.data, p + (i - 1) * 2))\nend\n"
    );
}

#[test]
fn vector_return_loops_and_frees() {
    let mut ctx = ctx_with(vec![("free", "F_SYM")]);
    ctx.push("ptr".to_string());
    ctx.push("len".to_string());
    RustVectorToLuau { ty: &Describe::U32 }.render(&mut ctx);
    assert_eq!(ctx.pop(), "vector_0");
    assert_eq!(
        ctx.out.out,
        "local vector_0 = table.create(len)\nfor i = 1, len do\n\ttable.insert(vector_0, buffer.readu32(MEMORY.data, ptr + (i - 1) * 4 + 0))\nend\nWASM.func_list.F_SYM(ptr, len * 4, 4)\n"
    );
}

#[test]
fn pull_memory_reads_at_aligned_offsets() {
    let mut ctx = ctx_with(vec![]);
    let prims = Describe::Option { ty: Box::new(Describe::U32) }.primitive_values();
    ctx.push("base".to_string());
    PullMemory { primitives: prims.as_slice() }.render(&mut ctx);
    assert_eq!(ctx.pop(), "buffer.readu32(MEMORY.data, base + 4)");
    assert_eq!(ctx.pop(), "buffer.readu8(MEMORY.data, base + 0)");
    assert_eq!(ctx.out.out, "");
}

#[test]
fn write_memory_stores_at_aligned_offsets() {
    let mut ctx = ctx_with(vec![]);
    let prims = Describe::Option { ty: Box::new(Describe::F64) }.primitive_values();
    ctx.push("d".to_string());
    ctx.push("x".to_string());
    ctx.push("out".to_string());
    WriteMemory { primitives: prims.as_slice() }.render(&mut ctx);
    assert!(ctx.inputs.is_empty());
    assert_eq!(
        ctx.out.out,
        "buffer.writeu8(MEMORY.data, out + 0, d)\nbuffer.writef64(MEMORY.data, out + 8, x)\n"
    );
}

#[test]
fn option_round_trip_on_the_stack() {
    let mut ctx = ctx_with(vec![]);
    ctx.push("v".to_string());
    LuauToRust { ty: &Describe::Option { ty: Box::new(Describe::U32) } }.render(&mut ctx);
    assert_eq!(ctx.inputs.len(), 2);
    RustToLuau { ty: &Describe::Option { ty: Box::new(Describe::U32) } }.render(&mut ctx);
    assert_eq!(ctx.inputs.len(), 1);
    assert_eq!(ctx.pop(), "optional_0");
}
