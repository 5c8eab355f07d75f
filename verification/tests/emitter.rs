use roblox_rs::emitter::{IndentedWriter, InstructionContext, Intrinsics, Vars};
use roblox_rs::shared_context::SharedIntrinsic;

fn intrinsic(name: &str, export: &str) -> SharedIntrinsic {
    SharedIntrinsic { name: name.to_string(), export_name: export.to_string() }
}

#[test]
fn writer_indents_each_line() {
    let mut w = IndentedWriter::new();
    w.writeln("a");
    w.up();
    w.writeln("b");
    w.write("c");
    w.writeln("d");
    w.down();
    w.writeln("e");
    assert_eq!(w.out, "a\n\tb\n\tcd\ne\n");
}

#[test]
fn vars_hand_out_numbered_names() {
    let mut v = Vars::new();
    assert_eq!(v.next("x"), "x_0");
    assert_eq!(v.next("x"), "x_1");
    assert_eq!(v.next("y"), "y_0");
    assert_eq!(v.many(2, "x"), vec!["x_2".to_string(), "x_3".to_string()]);
}

#[test]
fn scopes_shadow_and_restore() {
    let mut v = Vars::new();
    assert_eq!(v.next("x"), "x_0");
    v.scope();
    assert_eq!(v.next("x"), "x_1");
    assert_eq!(v.next("x"), "x_2");
    v.unscope();
    assert_eq!(v.next("x"), "x_1");
}

#[test]
fn intrinsics_record_first_use() {
    let mut i = Intrinsics::new(vec![intrinsic("alloc", "alloc_sym"), intrinsic("free", "free_sym")]);
    assert_eq!(i.lookup("alloc"), Some("alloc_sym".to_string()));
    assert!(i.used.is_empty());
    assert_eq!(i.get("alloc"), Some("alloc_sym".to_string()));
    assert_eq!(i.get("alloc"), Some("alloc_sym".to_string()));
    assert_eq!(i.used, vec!["alloc".to_string()]);
    assert_eq!(i.get("missing"), None);
    assert_eq!(i.used, vec!["alloc".to_string()]);
}

#[test]
fn complex_expressions_are_hoisted_once() {
    let mut ctx = InstructionContext::new(vec![]);
    ctx.push("a + b".to_string());
    let v = ctx.pop_complex();
    assert_eq!(v, "prereq_0");
    assert_eq!(ctx.out.out, "local prereq_0 = a + b\n");
    ctx.push("plain".to_string());
    let v = ctx.pop_complex();
    assert_eq!(v, "plain");
    assert_eq!(ctx.out.out, "local prereq_0 = a + b\n");
}

#[test]
fn stack_discipline() {
    let mut ctx = InstructionContext::new(vec![]);
    ctx.push("a".to_string());
    ctx.push("b".to_string());
    ctx.push("c".to_string());
    assert_eq!(ctx.pop(), "c");
    assert_eq!(ctx.pop_many(2), vec!["a".to_string(), "b".to_string()]);
    assert!(ctx.inputs.is_empty());
}
