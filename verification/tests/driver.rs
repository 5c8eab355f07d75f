use roblox_rs::analysis::{
    build_plan, interpret_describe, BuildError, DescInstr, ModuleFunctionExport, ModuleInfo,
};
use roblox_rs::shared_context::{
    SharedContext, SharedExportFunction, SharedImportFunction, SharedIntrinsic,
};

fn describe_body(tags: &[u32]) -> Vec<DescInstr> {
    let mut v = Vec::new();
    for t in tags {
        v.push(DescInstr::ConstI32(*t));
        v.push(DescInstr::CallDescribe);
    }
    v
}

fn import(rust: &str, luau: &str, describe: &str, export: &str) -> SharedImportFunction {
    SharedImportFunction {
        rust_name: rust.to_string(),
        luau_name: luau.to_string(),
        describe_name: describe.to_string(),
        export_name: export.to_string(),
    }
}

fn export(rust: &str, luau: &str, export: &str, describe: &str) -> SharedExportFunction {
    SharedExportFunction {
        rust_name: rust.to_string(),
        luau_name: luau.to_string(),
        export_name: export.to_string(),
        describe_name: describe.to_string(),
    }
}

const HEADER: &str = "--!native\n--!optimize 2\nlocal WASM_CTOR = require(script.Parent.wasm)\nlocal WASM_FUNCS = {}\nlocal WASM_EXPORTS = {}\nlocal HEAP, HEAP_ID = {}, 0\nlocal WASM, MEMORY, WASM_STACK\n";
const TAIL_START: &str = "WASM = WASM_CTOR({ luau = { func_list = WASM_FUNCS } })\nMEMORY = WASM.memory_list.memory\nWASM_STACK = WASM.global_list.__stack_pointer\n";

#[test]
fn interpreting_a_describe_body() {
    let tags = interpret_describe(&describe_body(&[9, 1, 2, 10])).unwrap();
    assert_eq!(tags, vec![9, 1, 2, 10]);
    let mut bad = describe_body(&[2]);
    bad.push(DescInstr::Unsupported);
    assert!(interpret_describe(&bad).is_none());
    let silent = vec![DescInstr::ConstI32(5)];
    assert_eq!(interpret_describe(&silent).unwrap(), Vec::<u32>::new());
}

#[test]
fn whole_pipeline_renders_imports_exports_and_mains() {
    let info = ModuleInfo {
        function_exports: vec![
            ModuleFunctionExport {
                name: "print_desc".to_string(),
                body: describe_body(&[9, 1, 13, 14, 10]),
            },
            ModuleFunctionExport {
                name: "echo_desc".to_string(),
                body: describe_body(&[9, 1, 2, 13, 2]),
            },
        ],
        import_names: vec!["print_sym".to_string()],
        export_names: vec!["alloc_sym".to_string(), "free_sym".to_string()],
        has_stack_pointer: true,
        has_function_table: true,
    };
    let shared = SharedContext {
        imports: vec![import("print", "print", "print_desc", "print_sym")],
        exports: vec![export("echo", "echo_non_zero", "echo_sym", "echo_desc")],
        main_fns: vec!["main_sym".to_string()],
        intrinsics: vec![
            SharedIntrinsic { name: "alloc".to_string(), export_name: "alloc_sym".to_string() },
            SharedIntrinsic { name: "free".to_string(), export_name: "free_sym".to_string() },
        ],
    };
    let plan = build_plan(&info, &shared).unwrap();
    let expected_import = "WASM_FUNCS['print_sym'] = function(arg0_1, arg0_2)\n\tlocal optional_0\n\tif arg0_1 == 1 then\n\t\tlocal value_0 = HEAP[arg0_2]\n\t\tHEAP[arg0_2] = nil\n\t\toptional_0 = value_0\n\tend\n\tprint(optional_0)\n\treturn \nend\n";
    let expected_export = "WASM_EXPORTS[\"echo_non_zero\"] = function(param_0)\n\tlocal spill_0 = WASM_STACK.value - 8\n\tWASM_STACK.value = spill_0\n\tWASM.func_list.echo_sym(spill_0, param_0)\n\tlocal output_0 = buffer.readu8(MEMORY.data, spill_0 + 0)\n\tlocal output_1 = buffer.readu32(MEMORY.data, spill_0 + 4)\n\tWASM_STACK.value = spill_0 + 8\n\tlocal optional_0\n\tif output_0 == 1 then\n\t\toptional_0 = output_1\n\tend\n\treturn optional_0\nend\n";
    let expected = format!(
        "{}{}{}{}WASM.func_list.main_sym()\nreturn WASM_EXPORTS\n",
        HEADER, expected_import, expected_export, TAIL_START
    );
    assert_eq!(plan.runtime_script, expected);
    assert_eq!(
        plan.delete_describe_exports,
        vec!["print_desc".to_string(), "echo_desc".to_string()]
    );
    assert_eq!(
        plan.delete_intrinsic_exports,
        vec!["alloc_sym".to_string(), "free_sym".to_string()]
    );
    assert!(plan.used_intrinsics.is_empty());
    assert!(plan.export_stack_pointer);
    assert!(plan.export_func_table);
}

#[test]
fn a_dead_foreign_import_renders_nothing() {
    let info = ModuleInfo {
        function_exports: vec![ModuleFunctionExport {
            name: "print_desc".to_string(),
            body: describe_body(&[9, 1, 13, 14, 10]),
        }],
        import_names: vec![],
        export_names: vec![],
        has_stack_pointer: false,
        has_function_table: false,
    };
    let shared = SharedContext {
        imports: vec![import("print", "print", "print_desc", "print_sym")],
        exports: vec![],
        main_fns: vec![],
        intrinsics: vec![],
    };
    let plan = build_plan(&info, &shared).unwrap();
    let expected = format!("{}{}return WASM_EXPORTS\n", HEADER, TAIL_START);
    assert_eq!(plan.runtime_script, expected);
    assert_eq!(plan.delete_describe_exports, vec!["print_desc".to_string()]);
    assert!(!plan.export_stack_pointer);
    assert!(!plan.export_func_table);
}

#[test]
fn a_missing_describe_function_skips_the_binding() {
    let info = ModuleInfo {
        function_exports: vec![],
        import_names: vec!["print_sym".to_string()],
        export_names: vec![],
        has_stack_pointer: false,
        has_function_table: false,
    };
    let shared = SharedContext {
        imports: vec![import("print", "print", "print_desc", "print_sym")],
        exports: vec![],
        main_fns: vec![],
        intrinsics: vec![],
    };
    let plan = build_plan(&info, &shared).unwrap();
    assert!(plan.delete_describe_exports.is_empty());
    let expected = format!("{}{}return WASM_EXPORTS\n", HEADER, TAIL_START);
    assert_eq!(plan.runtime_script, expected);
}

#[test]
fn used_intrinsics_keep_their_exports() {
    let info = ModuleInfo {
        function_exports: vec![ModuleFunctionExport {
            name: "greet_desc".to_string(),
            body: describe_body(&[9, 1, 15, 10]),
        }],
        import_names: vec![],
        export_names: vec!["free_sym".to_string()],
        has_stack_pointer: true,
        has_function_table: false,
    };
    let shared = SharedContext {
        imports: vec![],
        exports: vec![export("greet", "greet", "greet_sym", "greet_desc")],
        main_fns: vec![],
        intrinsics: vec![
            SharedIntrinsic { name: "alloc".to_string(), export_name: "alloc_sym".to_string() },
            SharedIntrinsic { name: "free".to_string(), export_name: "free_sym".to_string() },
        ],
    };
    let plan = build_plan(&info, &shared).unwrap();
    assert_eq!(plan.used_intrinsics, vec!["alloc".to_string()]);
    assert_eq!(plan.delete_intrinsic_exports, vec!["free_sym".to_string()]);
}

#[test]
fn an_unsupported_instruction_aborts_the_build() {
    let info = ModuleInfo {
        function_exports: vec![ModuleFunctionExport {
            name: "echo_desc".to_string(),
            body: vec![DescInstr::Unsupported],
        }],
        import_names: vec![],
        export_names: vec![],
        has_stack_pointer: false,
        has_function_table: false,
    };
    let shared = SharedContext {
        imports: vec![],
        exports: vec![export("echo", "echo", "echo_sym", "echo_desc")],
        main_fns: vec![],
        intrinsics: vec![],
    };
    let e = build_plan(&info, &shared).unwrap_err();
    assert!(matches!(e, BuildError::UnsupportedInstruction { .. }));
    assert_eq!(
        e.message(),
        "unexpected instruction in description function echo_desc"
    );
}

#[test]
fn a_malformed_descriptor_aborts_the_build() {
    let info = ModuleInfo {
        function_exports: vec![ModuleFunctionExport {
            name: "echo_desc".to_string(),
            body: describe_body(&[99]),
        }],
        import_names: vec![],
        export_names: vec![],
        has_stack_pointer: false,
        has_function_table: false,
    };
    let shared = SharedContext {
        imports: vec![],
        exports: vec![export("echo", "echo", "echo_sym", "echo_desc")],
        main_fns: vec![],
        intrinsics: vec![],
    };
    let e = build_plan(&info, &shared).unwrap_err();
    assert!(matches!(e, BuildError::BadDescriptor { .. }));
}

#[test]
fn an_unsupported_type_aborts_the_build() {
    let info = ModuleInfo {
        function_exports: vec![ModuleFunctionExport {
            name: "echo_desc".to_string(),
            body: describe_body(&[9, 1, 8, 15, 10]),
        }],
        import_names: vec![],
        export_names: vec![],
        has_stack_pointer: false,
        has_function_table: false,
    };
    let shared = SharedContext {
        imports: vec![],
        exports: vec![export("echo", "echo", "echo_sym", "echo_desc")],
        main_fns: vec![],
        intrinsics: vec![],
    };
    let e = build_plan(&info, &shared).unwrap_err();
    assert!(matches!(e, BuildError::UnsupportedType { .. }));
}

#[test]
fn a_missing_intrinsic_aborts_the_build() {
    let info = ModuleInfo {
        function_exports: vec![ModuleFunctionExport {
            name: "greet_desc".to_string(),
            body: describe_body(&[9, 1, 15, 10]),
        }],
        import_names: vec![],
        export_names: vec![],
        has_stack_pointer: false,
        has_function_table: false,
    };
    let shared = SharedContext {
        imports: vec![],
        exports: vec![export("greet", "greet", "greet_sym", "greet_desc")],
        main_fns: vec![],
        intrinsics: vec![],
    };
    let e = build_plan(&info, &shared).unwrap_err();
    assert!(matches!(e, BuildError::MissingIntrinsic { .. }));
}

#[test]
fn a_non_function_descriptor_is_skipped() {
    let info = ModuleInfo {
        function_exports: vec![ModuleFunctionExport {
            name: "odd_desc".to_string(),
            body: describe_body(&[2]),
        }],
        import_names: vec![],
        export_names: vec![],
        has_stack_pointer: false,
        has_function_table: false,
    };
    let shared = SharedContext {
        imports: vec![],
        exports: vec![export("odd", "odd", "odd_sym", "odd_desc")],
        main_fns: vec![],
        intrinsics: vec![],
    };
    let plan = build_plan(&info, &shared).unwrap();
    assert_eq!(plan.delete_describe_exports, vec!["odd_desc".to_string()]);
    let expected = format!("{}{}return WASM_EXPORTS\n", HEADER, TAIL_START);
    assert_eq!(plan.runtime_script, expected);
}
