use roblox_rs::describe::Describe;
use roblox_rs::emitter::InstructionContext;
use roblox_rs::instructions::exports::{ExportBlock, InvokeRustFunction, WasmCreateExport};
use roblox_rs::instructions::headers::{CreateRuntimeHeader, CreateRuntimeTail};
use roblox_rs::instructions::imports::{ImportBlock, InvokeLuauFunction, WasmCreateImport};
use roblox_rs::shared_context::SharedIntrinsic;

fn fresh() -> InstructionContext {
    InstructionContext::new(vec![])
}

fn ctx_with(intrinsics: Vec<(&str, &str)>) -> InstructionContext {
    InstructionContext::new(
        intrinsics
            .into_iter()
            .map(|(n, e)| SharedIntrinsic { name: n.to_string(), export_name: e.to_string() })
            .collect(),
    )
}

fn opt(ty: Describe) -> Describe {
    Describe::Option { ty: Box::new(ty) }
}

#[test]
fn runtime_header_text() {
    let mut ctx = fresh();
    CreateRuntimeHeader.render(&mut ctx);
    assert_eq!(
        ctx.out.out,
        "--!native\n--!optimize 2\nlocal WASM_CTOR = require(script.Parent.wasm)\nlocal WASM_FUNCS = {}\nlocal WASM_EXPORTS = {}\nlocal HEAP, HEAP_ID = {}, 0\nlocal WASM, MEMORY, WASM_STACK\n"
    );
}

#[test]
fn runtime_tail_invokes_mains_after_initialisation() {
    let mut ctx = fresh();
    let tail = CreateRuntimeTail { main_names: vec!["main_sym".to_string()] };
    tail.render(&mut ctx);
    assert_eq!(
        ctx.out.out,
        "WASM = WASM_CTOR({ luau = { func_list = WASM_FUNCS } })\nMEMORY = WASM.memory_list.memory\nWASM_STACK = WASM.global_list.__stack_pointer\nWASM.func_list.main_sym()\nreturn WASM_EXPORTS\n"
    );
}

#[test]
fn import_with_optional_extern_ref_argument() {
    let mut ctx = fresh();
    let instr = WasmCreateImport {
        export_name: "print_sym".to_string(),
        body: ImportBlock {
            inputs: vec![opt(Describe::ExternRef)],
            output: Describe::Void,
            body: InvokeLuauFunction {
                function_name: "print".to_string(),
                parameter_count: 1,
                result_count: 0,
            },
        },
    };
    instr.render(&mut ctx);
    assert!(ctx.inputs.is_empty());
    assert_eq!(
        ctx.out.out,
        "WASM_FUNCS['print_sym'] = function(arg0_1, arg0_2)\n\tlocal optional_0\n\tif arg0_1 == 1 then\n\t\tlocal value_0 = HEAP[arg0_2]\n\t\tHEAP[arg0_2] = nil\n\t\toptional_0 = value_0\n\tend\n\tprint(optional_0)\n\treturn \nend\n"
    );
}

#[test]
fn import_with_spilled_optional_return() {
    let mut ctx = fresh();
    let instr = WasmCreateImport {
        export_name: "rand_sym".to_string(),
        body: ImportBlock {
            inputs: vec![Describe::U32],
            output: opt(Describe::F64),
            body: InvokeLuauFunction {
                function_name: "rand".to_string(),
                parameter_count: 1,
                result_count: 1,
            },
        },
    };
    instr.render(&mut ctx);
    assert!(ctx.inputs.is_empty());
    assert_eq!(
        ctx.out.out,
        "WASM_FUNCS['rand_sym'] = function(ret_0, arg0_1)\n\tlocal result_0 = rand(arg0_1)\n\tlocal option_0 = 0\n\tlocal option_1 = 0\n\tif result_0 ~= nil then\n\t\toption_0 = 1\n\t\toption_1 = result_0\n\tend\n\tbuffer.writeu8(MEMORY.data, ret_0 + 0, option_0)\n\tbuffer.writef64(MEMORY.data, ret_0 + 8, option_1)\nend\n"
    );
}

#[test]
fn export_with_spilled_optional_return() {
    let mut ctx = fresh();
    let instr = WasmCreateExport {
        luau_name: "echo_non_zero".to_string(),
        body: ExportBlock {
            body: InvokeRustFunction {
                function_name: "echo_sym".to_string(),
                parameters: vec![Describe::U32],
                output_type: opt(Describe::U32),
            },
        },
    };
    instr.render(&mut ctx);
    assert!(ctx.inputs.is_empty());
    assert_eq!(
        ctx.out.out,
        "WASM_EXPORTS[\"echo_non_zero\"] = function(param_0)\n\tlocal spill_0 = WASM_STACK.value - 8\n\tWASM_STACK.value = spill_0\n\tWASM.func_list.echo_sym(spill_0, param_0)\n\tlocal output_0 = buffer.readu8(MEMORY.data, spill_0 + 0)\n\tlocal output_1 = buffer.readu32(MEMORY.data, spill_0 + 4)\n\tWASM_STACK.value = spill_0 + 8\n\tlocal optional_0\n\tif output_0 == 1 then\n\t\toptional_0 = output_1\n\tend\n\treturn optional_0\nend\n"
    );
}

#[test]
fn export_with_single_slot_return() {
    let mut ctx = fresh();
    let instr = WasmCreateExport {
        luau_name: "double".to_string(),
        body: ExportBlock {
            body: InvokeRustFunction {
                function_name: "double_sym".to_string(),
                parameters: vec![Describe::U32],
                output_type: Describe::U32,
            },
        },
    };
    instr.render(&mut ctx);
    assert!(ctx.inputs.is_empty());
    assert_eq!(
        ctx.out.out,
        "WASM_EXPORTS[\"double\"] = function(param_0)\n\tlocal output_0 = WASM.func_list.double_sym(param_0)\n\treturn output_0\nend\n"
    );
}

#[test]
fn export_with_string_argument_uses_the_allocator() {
    let mut ctx = ctx_with(vec![("alloc", "A_SYM"), ("free", "F_SYM")]);
    let instr = WasmCreateExport {
        luau_name: "greet".to_string(),
        body: ExportBlock {
            body: InvokeRustFunction {
                function_name: "greet_sym".to_string(),
                parameters: vec![Describe::String],
                output_type: Describe::Void,
            },
        },
    };
    instr.render(&mut ctx);
    assert!(ctx.inputs.is_empty());
    assert_eq!(ctx.intrinsics.used, vec!["alloc".to_string()]);
    assert_eq!(
        ctx.out.out,
        "WASM_EXPORTS[\"greet\"] = function(param_0)\n\tlocal string_0 = A_SYM(#param_0, 1)\n\tbuffer.writestring(MEMORY.data, string_0, param_0)\n\tWASM.func_list.greet_sym(string_0, #param_0)\nend\n"
    );
}
