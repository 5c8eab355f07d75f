use roblox_rs::shared_context::{
    decode, encode, SharedContext, SharedExportFunction, SharedImportFunction, SharedIntrinsic,
};

fn sample() -> SharedContext {
    SharedContext {
        imports: vec![SharedImportFunction {
            rust_name: "print".to_string(),
            luau_name: "print".to_string(),
            describe_name: "print_desc".to_string(),
            export_name: "print_sym".to_string(),
        }],
        exports: vec![SharedExportFunction {
            rust_name: "echo".to_string(),
            luau_name: "echo_non_zero".to_string(),
            export_name: "echo_sym".to_string(),
            describe_name: "echo_desc".to_string(),
        }],
        main_fns: vec!["main_sym".to_string()],
        intrinsics: vec![SharedIntrinsic {
            name: "alloc".to_string(),
            export_name: "alloc_sym".to_string(),
        }],
    }
}

#[test]
fn wire_layout_of_an_empty_record() {
    let empty = SharedContext { imports: vec![], exports: vec![], main_fns: vec![], intrinsics: vec![] };
    let bytes = encode(&empty);
    assert_eq!(bytes, vec![0u8; 32]);
}

#[test]
fn wire_layout_prefixes_lengths_little_endian() {
    let c = SharedContext {
        imports: vec![],
        exports: vec![],
        main_fns: vec!["ab".to_string()],
        intrinsics: vec![],
    };
    let bytes = encode(&c);
    let mut expected = vec![0u8; 8];
    expected.extend_from_slice(&[0, 0, 0, 0, 0, 0, 0, 0]);
    expected.extend_from_slice(&[1, 0, 0, 0, 0, 0, 0, 0]);
    expected.extend_from_slice(&[2, 0, 0, 0, 0, 0, 0, 0]);
    expected.extend_from_slice(b"ab");
    expected.extend_from_slice(&[0, 0, 0, 0, 0, 0, 0, 0]);
    assert_eq!(bytes, expected);
}

#[test]
fn round_trip_of_one_record() {
    let c = sample();
    let bytes = encode(&c);
    let d = decode(bytes.as_slice());
    assert_eq!(d.imports.len(), 1);
    assert_eq!(d.imports[0].rust_name, "print");
    assert_eq!(d.imports[0].luau_name, "print");
    assert_eq!(d.imports[0].describe_name, "print_desc");
    assert_eq!(d.imports[0].export_name, "print_sym");
    assert_eq!(d.exports.len(), 1);
    assert_eq!(d.exports[0].export_name, "echo_sym");
    assert_eq!(d.exports[0].describe_name, "echo_desc");
    assert_eq!(d.main_fns, vec!["main_sym".to_string()]);
    assert_eq!(d.intrinsics.len(), 1);
    assert_eq!(d.intrinsics[0].name, "alloc");
    assert_eq!(d.intrinsics[0].export_name, "alloc_sym");
}

#[test]
fn concatenated_records_catenate_their_lists() {
    let c = sample();
    let mut bytes = encode(&c);
    bytes.extend(encode(&c));
    let d = decode(bytes.as_slice());
    assert_eq!(d.imports.len(), 2);
    assert_eq!(d.exports.len(), 2);
    assert_eq!(d.main_fns.len(), 2);
    assert_eq!(d.intrinsics.len(), 2);
}

#[test]
fn a_malformed_tail_stops_the_stream() {
    let c = sample();
    let mut bytes = encode(&c);
    bytes.push(7);
    let d = decode(bytes.as_slice());
    assert_eq!(d.imports.len(), 1);
    assert_eq!(d.exports.len(), 1);
}

#[test]
fn garbage_decodes_to_nothing() {
    let d = decode(&[1, 2, 3]);
    assert!(d.imports.is_empty());
    assert!(d.exports.is_empty());
    assert!(d.main_fns.is_empty());
    assert!(d.intrinsics.is_empty());
}
