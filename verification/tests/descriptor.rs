use roblox_rs::describe::{Describe, Primitive};

fn opt(ty: Describe) -> Describe {
    Describe::Option { ty: Box::new(ty) }
}

#[test]
fn value_counts() {
    assert_eq!(Describe::U32.value_count(), 1);
    assert_eq!(Describe::Void.value_count(), 0);
    assert_eq!(Describe::String.value_count(), 2);
    assert_eq!(opt(Describe::U32).value_count(), 2);
    assert_eq!(opt(opt(Describe::Boolean)).value_count(), 3);
    assert_eq!(
        Describe::Vector { ty: Box::new(Describe::U8) }.value_count(),
        2
    );
}

#[test]
fn slot_count_matches_primitives() {
    let samples = vec![
        Describe::U8,
        Describe::I16,
        Describe::F64,
        Describe::Boolean,
        Describe::ExternRef,
        Describe::String,
        Describe::Void,
        opt(Describe::F64),
        opt(opt(Describe::U32)),
        Describe::Vector { ty: Box::new(Describe::U32) },
    ];
    for d in samples {
        assert_eq!(d.value_count(), d.primitive_values().len());
    }
}

#[test]
fn primitive_carriers() {
    assert_eq!(Describe::Boolean.primitive_values(), vec![Primitive::U32]);
    assert_eq!(Describe::I8.primitive_values(), vec![Primitive::I8]);
    assert_eq!(
        Describe::String.primitive_values(),
        vec![Primitive::U32, Primitive::U32]
    );
    assert_eq!(
        opt(Describe::F64).primitive_values(),
        vec![Primitive::U8, Primitive::F64]
    );
    assert_eq!(
        Describe::Ref { ty: Box::new(Describe::String) }.primitive_values(),
        vec![Primitive::U32, Primitive::U32]
    );
}

#[test]
fn aligned_memory_sizes() {
    assert_eq!(Describe::U8.memory_size(), 1);
    assert_eq!(Describe::U32.memory_size(), 4);
    assert_eq!(Describe::String.memory_size(), 8);
    assert_eq!(opt(Describe::U32).memory_size(), 8);
    assert_eq!(opt(Describe::F64).memory_size(), 16);
    assert_eq!(opt(Describe::U8).memory_size(), 2);
    assert_eq!(Describe::Void.memory_size(), 0);
}

#[test]
fn primitive_projections() {
    assert_eq!(Primitive::U8.byte_size(), 1);
    assert_eq!(Primitive::F64.byte_size(), 8);
    assert_eq!(Primitive::U32.next_align(1), 4);
    assert_eq!(Primitive::U32.next_align(4), 4);
    assert_eq!(Primitive::F64.next_align(1), 8);
    assert_eq!(Primitive::I16.buffer_name(), "i16");
    assert_eq!(Primitive::F32.buffer_name(), "f32");
}

#[test]
fn parse_primitives_and_wrappers() {
    let d = Describe::parse(&[2]).unwrap();
    assert!(matches!(d, Describe::U32));
    let d = Describe::parse(&[13, 2]).unwrap();
    assert!(matches!(d, Describe::Option { .. }));
    assert_eq!(d.value_count(), 2);
    let d = Describe::parse(&[17, 0]).unwrap();
    assert!(matches!(d, Describe::Vector { .. }));
    let d = Describe::parse(&[7, 15]).unwrap();
    assert!(matches!(d, Describe::Ref { .. }));
    assert_eq!(d.value_count(), 2);
}

#[test]
fn parse_function_signature() {
    let d = Describe::parse(&[9, 2, 2, 6, 13, 12]).unwrap();
    match d {
        Describe::Function { args, return_type } => {
            assert_eq!(args.len(), 2);
            assert!(matches!(args[0], Describe::U32));
            assert!(matches!(args[1], Describe::Boolean));
            assert!(matches!(*return_type, Describe::Option { .. }));
        }
        _ => panic!("expected a function signature"),
    }
}

#[test]
fn parse_rejects_malformed_streams() {
    assert!(Describe::parse(&[99]).is_none());
    assert!(Describe::parse(&[13]).is_none());
    assert!(Describe::parse(&[9, 2, 2]).is_none());
    assert!(Describe::parse(&[]).is_none());
}

#[test]
fn parse_ignores_trailing_tags() {
    let d = Describe::parse(&[6, 0, 0, 0]).unwrap();
    assert!(matches!(d, Describe::Boolean));
}

#[test]
fn conversion_support() {
    assert!(Describe::String.check_l2r());
    assert!(!Describe::Ref { ty: Box::new(Describe::String) }.check_l2r());
    assert!(Describe::Ref { ty: Box::new(Describe::String) }.check_r2l());
    assert!(!Describe::RefMut { ty: Box::new(Describe::String) }.check_r2l());
    assert!(Describe::Ref { ty: Box::new(Describe::Slice { ty: Box::new(Describe::U16) }) }
        .check_r2l());
    assert!(!Describe::Ref { ty: Box::new(Describe::Slice { ty: Box::new(Describe::String) }) }
        .check_r2l());
    assert!(opt(Describe::String).check_l2r_needs_alloc());
    assert!(!opt(Describe::U32).check_l2r_needs_alloc());
    assert!(Describe::Vector { ty: Box::new(Describe::U8) }.check_r2l_needs_free());
}
