use jvmclass::attributes::{read_attribute_table, write_attribute_table};
use jvmclass::constants::{read_constant_pool, write_constant_pool};
use jvmclass::instructions::{compile, decompile, read_instruction, write_instruction};
use jvmclass::mapping::{
    compact_class_flags, compact_field_flags, compact_flags, compact_inner_class_flags, compact_method_flags,
    compact_method_parameter_flags, compact_module_exports_flags, compact_module_flags,
    compact_module_opens_flags, compact_module_requires_flags, extract_class_flags, extract_field_flags,
    extract_flags, extract_inner_class_flags, extract_method_flags, extract_method_parameter_flags,
    extract_module_exports_flags, extract_module_flags, extract_module_opens_flags,
    extract_module_requires_flags,
};
use jvmclass::{
    AccessFlag, Attribute, ByteReader, Constant, FlagContext, Instruction, JVMClass, JavaError, LineNumber,
    LookupSwitchPair, MemberData, Method, StackMapFrame, StackMapFrameType, VerificationType,
};

fn utf8(s: &str) -> Constant {
    Constant::Utf8(s.as_bytes().to_vec())
}

fn minimum_class() -> JVMClass {
    let mut c = JVMClass::new();
    c.major = 52;
    c.minor = 0;
    c.access_flags = vec![AccessFlag::Public, AccessFlag::Super];
    c.this_class = 2;
    c.super_class = 4;
    c.constants = vec![
        Constant::Invalid,
        Constant::Class { name_index: 2 },
        utf8("Empty"),
        Constant::Class { name_index: 4 },
        utf8("java/lang/Object"),
    ];
    c
}

fn store(c: &JVMClass) -> Vec<u8> {
    let mut out = Vec::new();
    c.store(&mut out).unwrap();
    out
}

fn load(bytes: Vec<u8>) -> (JVMClass, ByteReader) {
    let mut r = ByteReader::new(bytes);
    let mut c = JVMClass::new();
    c.load(&mut r).unwrap();
    (c, r)
}

fn code_block(code: &[u8]) -> Vec<u8> {
    let mut v = (code.len() as u32).to_be_bytes().to_vec();
    v.extend_from_slice(code);
    v
}

#[test]
fn minimum_class_layout() {
    let bytes = store(&minimum_class());
    assert_eq!(&bytes[0..4], &[0xCA, 0xFE, 0xBA, 0xBE]);
    assert_eq!(&bytes[4..8], &[0, 0, 0, 52]);
    assert_eq!(&bytes[8..10], &[0, 5]);
    let flags_at = 10 + 3 + 8 + 3 + 19;
    assert_eq!(&bytes[flags_at..flags_at + 2], &[0x00, 0x21]);
    assert_eq!(&bytes[flags_at + 2..flags_at + 6], &[0, 2, 0, 4]);
    assert_eq!(&bytes[flags_at + 6..], &[0, 0, 0, 0, 0, 0, 0, 0]);
    assert_eq!(bytes.len(), 57);
}

#[test]
fn minimum_class_round_trip() {
    let bytes = store(&minimum_class());
    let (c, r) = load(bytes.clone());
    assert!(r.canonical);
    assert!(r.at_end());
    assert_eq!(c.major, 52);
    assert_eq!(c.access_flags, vec![AccessFlag::Public, AccessFlag::Super]);
    assert_eq!(store(&c), bytes);
}

#[test]
fn switch_padding_from_offset() {
    let code = [
        0x1A, 0xAA, 0, 0, 0, 0, 0, 20, 0, 0, 0, 0, 0, 0, 0, 1, 0, 0, 0, 24, 0, 0, 0, 28, 0xAC,
    ];
    let mut r = ByteReader::new(code_block(&code));
    let decoded = decompile(&mut r).unwrap();
    assert!(r.canonical);
    assert_eq!(decoded.len(), 3);
    assert_eq!(decoded[0], Instruction::ILoad(0));
    assert_eq!(
        decoded[1],
        Instruction::TableSwitch { padding: 2, minimum: 0, maximum: 1, jump_targets: vec![24, 28], default: 20 }
    );
    assert_eq!(decoded[2], Instruction::IReturn);
    let mut out = Vec::new();
    compile(&mut out, &decoded).unwrap();
    assert_eq!(out, code_block(&code));
}

#[test]
fn switch_padding_at_other_offsets() {
    // lookupswitch at pc 0: padding 3; at pc 3 (after iconst_0, iconst_1, pop): padding 0.
    let at0 = [0xAB, 0, 0, 0, 0, 0, 0, 9, 0, 0, 0, 0];
    let mut r = ByteReader::new(code_block(&at0));
    let d = decompile(&mut r).unwrap();
    assert_eq!(d, vec![Instruction::LookupSwitch { padding: 3, default: 9, pairs: vec![] }]);
    let at3 = [0x03, 0x04, 0x57, 0xAB, 0, 0, 0, 9, 0, 0, 0, 1, 0, 0, 0, 5, 0, 0, 0, 7];
    let mut r = ByteReader::new(code_block(&at3));
    let d = decompile(&mut r).unwrap();
    assert_eq!(
        d[3],
        Instruction::LookupSwitch { padding: 0, default: 9, pairs: vec![LookupSwitchPair { value: 5, target: 7 }] }
    );
    assert_eq!(d[3].size(), 1 + 8 + 8);
}

#[test]
fn long_constant_pair() {
    let pool = vec![Constant::Invalid, Constant::Long(42), Constant::Invalid, utf8("x")];
    let mut out = Vec::new();
    write_constant_pool(&mut out, &pool).unwrap();
    assert_eq!(&out[0..2], &[0, 4]);
    assert_eq!(&out[2..11], &[5, 0, 0, 0, 0, 0, 0, 0, 42]);
    let mut r = ByteReader::new(out.clone());
    let back = read_constant_pool(&mut r).unwrap();
    assert_eq!(back, pool);
    assert!(r.at_end());
}

#[test]
fn wide_iinc_encoding() {
    let i = Instruction::IIncW(300, 0xFFFB);
    let mut out = Vec::new();
    write_instruction(&mut out, &i);
    assert_eq!(out, vec![0xC4, 0x84, 0x01, 0x2C, 0xFF, 0xFB]);
    assert_eq!(i.size(), 6);
    let mut r = ByteReader::new(out);
    assert_eq!(read_instruction(&mut r).unwrap(), i);
}

fn class_with_unknown() -> JVMClass {
    let mut c = minimum_class();
    c.constants.push(utf8("X-Custom"));
    c.attributes = vec![Attribute::Unknown { name: b"X-Custom".to_vec(), data: vec![0xDE, 0xAD, 0xBE, 0xEF] }];
    c
}

#[test]
fn unknown_attribute_pass_through() {
    let bytes = store(&class_with_unknown());
    assert_eq!(&bytes[bytes.len() - 12..], &[0, 1, 0, 5, 0, 0, 0, 4, 0xDE, 0xAD, 0xBE, 0xEF]);
    let (c, r) = load(bytes.clone());
    assert!(r.canonical);
    match &c.attributes[0] {
        Attribute::Unknown { name, data } => {
            assert_eq!(name, b"X-Custom");
            assert_eq!(data, &vec![0xDE, 0xAD, 0xBE, 0xEF]);
        }
        other => panic!("unexpected attribute {:?}", other),
    }
    assert_eq!(c.get_string_index(b"X-Custom").unwrap(), 5);
    assert_eq!(store(&c), bytes);
}

#[test]
fn short_form_normalization() {
    let mut r = ByteReader::new(code_block(&[0x1A, 0x3B]));
    let d = decompile(&mut r).unwrap();
    assert_eq!(d, vec![Instruction::ILoad(0), Instruction::IStore(0)]);
    let mut out = Vec::new();
    compile(&mut out, &d).unwrap();
    assert_eq!(out, code_block(&[0x1A, 0x3B]));
}

#[test]
fn long_form_of_short_index_is_not_canonical() {
    let mut r = ByteReader::new(code_block(&[0x15, 0x00]));
    let d = decompile(&mut r).unwrap();
    assert_eq!(d, vec![Instruction::ILoad(0)]);
    assert!(!r.canonical);
    let mut r = ByteReader::new(code_block(&[0x15, 0x07]));
    assert_eq!(decompile(&mut r).unwrap(), vec![Instruction::ILoad(7)]);
    assert!(r.canonical);
}

#[test]
fn nonzero_switch_padding_is_not_canonical() {
    let code = [0xAB, 1, 0, 0, 0, 0, 0, 9, 0, 0, 0, 0];
    let mut r = ByteReader::new(code_block(&code));
    let d = decompile(&mut r).unwrap();
    assert_eq!(d, vec![Instruction::LookupSwitch { padding: 3, default: 9, pairs: vec![] }]);
    assert!(!r.canonical);
}

fn rich_class() -> JVMClass {
    let mut c = minimum_class();
    for s in ["Code", "LineNumberTable", "StackMapTable", "main", "()V", "SourceFile", "Empty.java", "Deprecated"] {
        c.constants.push(utf8(s));
    }
    c.constants.push(Constant::Integer(-7));
    c.constants.push(Constant::Double(0x4009_21FB_5444_2D18));
    c.constants.push(Constant::Invalid);
    c.constants.push(Constant::Float(0x3FC0_0000));
    let code = vec![
        Instruction::IConst(-1),
        Instruction::IConst(5),
        Instruction::LConst(1),
        Instruction::FConst(2),
        Instruction::DConst(1),
        Instruction::Pop2,
        Instruction::Bipush(200),
        Instruction::Sipush(-300),
        Instruction::ILoad(3),
        Instruction::ALoad(4),
        Instruction::LStoreW(700),
        Instruction::IInc(2, -1),
        Instruction::InvokeInterface { index: 3, count: 1 },
        Instruction::InvokeDynamic(3),
        Instruction::MultiANewArray(1, 2),
        Instruction::Ifeq(-4),
        Instruction::GotoW(100),
        Instruction::TableSwitch { padding: 0, minimum: 0xFFFF_FFFF, maximum: 0, jump_targets: vec![1, 2], default: 3 },
        Instruction::Return,
    ];
    let inner = vec![
        Attribute::LineNumberTable(vec![LineNumber { start_pc: 0, line_number: 1 }]),
        Attribute::StackMapTable(vec![
            StackMapFrame { frame_type: StackMapFrameType::SameFrame(3), offset_delta: 3, locals: vec![], stack: vec![] },
            StackMapFrame {
                frame_type: StackMapFrameType::FullFrame,
                offset_delta: 10,
                locals: vec![VerificationType::Integer, VerificationType::Object { cpool_index: 1 }],
                stack: vec![VerificationType::Uninitialized { offset: 2 }],
            },
        ]),
    ];
    c.methods = vec![Method(MemberData {
        access_flags: vec![AccessFlag::Public, AccessFlag::Static],
        name: 9,
        descriptor: 10,
        attributes: vec![
            Attribute::Code { code, max_stack: 4, max_locals: 5, exception_table: vec![], attributes: inner },
            Attribute::Deprecated,
        ],
    })];
    c.attributes = vec![Attribute::SourceFile { sourcefile_index: 12 }];
    c
}

#[test]
fn rich_class_round_trips_bytes_and_structure() {
    let bytes = store(&rich_class());
    let (c, r) = load(bytes.clone());
    assert!(r.canonical);
    assert!(r.at_end());
    let again = store(&c);
    assert_eq!(again, bytes);
    let (c2, _) = load(again);
    assert_eq!(format!("{:?}", c2), format!("{:?}", c));
    assert_eq!(format!("{:?}", c), format!("{:?}", rich_class()));
}

#[test]
fn decoded_pool_layout() {
    let (c, _) = load(store(&rich_class()));
    assert_eq!(c.constants[0], Constant::Invalid);
    for (i, k) in c.constants.iter().enumerate() {
        if matches!(k, Constant::Long(_) | Constant::Double(_)) {
            assert_eq!(c.constants[i + 1], Constant::Invalid);
        }
    }
}

#[test]
fn dangling_reference_is_rejected() {
    let pool = vec![Constant::Invalid, Constant::Class { name_index: 9 }];
    let mut out = Vec::new();
    write_constant_pool(&mut out, &pool).unwrap();
    let mut r = ByteReader::new(out);
    assert_eq!(read_constant_pool(&mut r), Err(JavaError::InvalidConstantId(9)));
    let pool = vec![Constant::Invalid, Constant::String { string_index: 0 }];
    let mut out = Vec::new();
    write_constant_pool(&mut out, &pool).unwrap();
    let mut r = ByteReader::new(out);
    assert_eq!(read_constant_pool(&mut r), Err(JavaError::InvalidConstantId(0)));
}

#[test]
fn wide_constant_in_last_slot_is_rejected() {
    let mut r = ByteReader::new(vec![0, 2, 5, 0, 0, 0, 0, 0, 0, 0, 1]);
    assert_eq!(read_constant_pool(&mut r), Err(JavaError::Malformed));
}

#[test]
fn size_matches_encoding() {
    let all = vec![
        Instruction::Nop,
        Instruction::ILoad(2),
        Instruction::ILoad(9),
        Instruction::AStoreW(9),
        Instruction::RetW(1),
        Instruction::IIncW(1, 2),
        Instruction::Ldc(1),
        Instruction::LdcW(1),
        Instruction::JsrW(8),
        Instruction::InvokeInterface { index: 1, count: 1 },
        Instruction::InvokeDynamic(1),
        Instruction::MultiANewArray(1, 1),
        Instruction::TableSwitch { padding: 3, minimum: 1, maximum: 3, jump_targets: vec![1, 2, 3], default: 0 },
        Instruction::LookupSwitch { padding: 1, default: 0, pairs: vec![LookupSwitchPair { value: 1, target: 2 }] },
    ];
    for i in &all {
        let mut out = Vec::new();
        write_instruction(&mut out, i);
        assert_eq!(i.size() as usize, out.len(), "{:?}", i);
    }
    assert_eq!(all[12].size(), 1 + 3 + 12 + 12);
}

#[test]
fn flags_round_trip_in_every_context() {
    let contexts = [
        (FlagContext::Class, 0xF631u16),
        (FlagContext::InnerClass, 0x761F),
        (FlagContext::Field, 0x50DF),
        (FlagContext::Method, 0x1DFF),
        (FlagContext::MethodParameter, 0x9010),
        (FlagContext::Module, 0x9020),
        (FlagContext::ModuleRequires, 0x9060),
        (FlagContext::ModuleOpens, 0x9000),
        (FlagContext::ModuleExports, 0x9000),
    ];
    for (ctx, union) in contexts {
        for m in [0u16, 0xFFFF, 0x0021, 0x1234, 0x8001] {
            assert_eq!(compact_flags(&extract_flags(m, ctx), ctx), m & union);
        }
    }
}

#[test]
fn per_context_flag_functions() {
    assert_eq!(extract_class_flags(0x0021), vec![AccessFlag::Public, AccessFlag::Super]);
    assert_eq!(compact_class_flags(&vec![AccessFlag::Super, AccessFlag::Public, AccessFlag::Volatile]), 0x0021);
    assert_eq!(extract_inner_class_flags(0x000A), vec![AccessFlag::Private, AccessFlag::Static]);
    assert_eq!(compact_inner_class_flags(&vec![AccessFlag::Enum]), 0x4000);
    assert_eq!(extract_field_flags(0x00C0), vec![AccessFlag::Volatile, AccessFlag::Transient]);
    assert_eq!(compact_field_flags(&vec![AccessFlag::Volatile]), 0x0040);
    assert_eq!(extract_method_flags(0x00C0), vec![AccessFlag::Bridge, AccessFlag::VarArgs]);
    assert_eq!(compact_method_flags(&vec![AccessFlag::Strict, AccessFlag::Native]), 0x0900);
    assert_eq!(extract_method_parameter_flags(0x8010), vec![AccessFlag::Final, AccessFlag::Mandated]);
    assert_eq!(compact_method_parameter_flags(&vec![AccessFlag::Synthetic]), 0x1000);
    assert_eq!(extract_module_flags(0x0020), vec![AccessFlag::Open]);
    assert_eq!(compact_module_flags(&vec![AccessFlag::Open, AccessFlag::Mandated]), 0x8020);
    assert_eq!(extract_module_requires_flags(0x0060), vec![AccessFlag::Transitive, AccessFlag::StaticPhase]);
    assert_eq!(compact_module_requires_flags(&vec![AccessFlag::StaticPhase]), 0x0040);
    assert_eq!(extract_module_opens_flags(0x1020), vec![AccessFlag::Synthetic]);
    assert_eq!(compact_module_opens_flags(&vec![AccessFlag::Mandated]), 0x8000);
    assert_eq!(extract_module_exports_flags(0x9000), vec![AccessFlag::Synthetic, AccessFlag::Mandated]);
    assert_eq!(compact_module_exports_flags(&vec![AccessFlag::Public]), 0);
}

#[test]
fn unmapped_flag_bits_are_not_canonical() {
    let mut bytes = store(&minimum_class());
    let flags_at = 10 + 3 + 8 + 3 + 19;
    bytes[flags_at] = 0x01;
    let (c, r) = load(bytes.clone());
    assert!(!r.canonical);
    assert_eq!(compact_class_flags(&c.access_flags), 0x0021);
    bytes[flags_at] = 0x00;
    assert_eq!(store(&c), bytes);
}

#[test]
fn get_string_resolves_through_entries() {
    let c = minimum_class();
    assert_eq!(c.get_string(2).unwrap(), b"Empty".to_vec());
    assert_eq!(c.get_string(1).unwrap(), b"Empty".to_vec());
    assert_eq!(c.get_string(3).unwrap(), b"java/lang/Object".to_vec());
    assert_eq!(c.get_string(5), Err(JavaError::InvalidConstantId(5)));
    assert!(matches!(c.get_string(0), Err(JavaError::ConstantTypeError(_))));
    assert_eq!(c.get_string_index(b"Empty"), Ok(2));
    assert_eq!(c.get_string_index(b"Missing"), Err(JavaError::StringNotFound));
}

#[test]
fn get_string_index_takes_first_match() {
    let mut c = minimum_class();
    c.constants.push(utf8("Empty"));
    assert_eq!(c.get_string_index(b"Empty"), Ok(2));
}

#[test]
fn store_without_attribute_name_fails() {
    let mut c = minimum_class();
    c.attributes = vec![Attribute::Synthetic];
    let mut out = vec![1, 2];
    assert_eq!(c.store(&mut out), Err(JavaError::StringNotFound));
    assert_eq!(out, vec![1, 2]);
}

#[test]
fn store_rejects_unencodable_constant_push() {
    let mut c = minimum_class();
    c.constants.push(utf8("Code"));
    c.methods = vec![Method(MemberData {
        access_flags: vec![],
        name: 2,
        descriptor: 2,
        attributes: vec![Attribute::Code {
            code: vec![Instruction::IConst(9)],
            max_stack: 1,
            max_locals: 1,
            exception_table: vec![],
            attributes: vec![],
        }],
    })];
    let mut out = Vec::new();
    assert_eq!(c.store(&mut out), Err(JavaError::Malformed));
    assert!(out.is_empty());
}

#[test]
fn bad_magic() {
    let mut bytes = store(&minimum_class());
    bytes[0] = 0xCB;
    let mut r = ByteReader::new(bytes);
    let mut c = JVMClass::new();
    assert_eq!(c.load(&mut r), Err(JavaError::BadMagic(0xCBFEBABE)));
    assert!(c.constants.is_empty());
}

#[test]
fn truncated_input() {
    let bytes = store(&minimum_class());
    let mut r = ByteReader::new(bytes[..bytes.len() - 1].to_vec());
    let mut c = JVMClass::new();
    assert_eq!(c.load(&mut r), Err(JavaError::UnexpectedEnd));
    assert_eq!(c.major, 0);
}

#[test]
fn unknown_constant_tag() {
    let mut r = ByteReader::new(vec![0, 2, 2, 0, 0]);
    assert_eq!(read_constant_pool(&mut r), Err(JavaError::UnknownConstantTag(2)));
}

#[test]
fn unknown_opcode() {
    let mut r = ByteReader::new(code_block(&[0xCA]));
    assert_eq!(decompile(&mut r), Err(JavaError::UnknownOpcode(0xCA)));
    let mut r = ByteReader::new(code_block(&[0xC4, 0x10, 0, 1]));
    assert_eq!(decompile(&mut r), Err(JavaError::UnknownOpcode(0x10)));
}

#[test]
fn attribute_length_must_match_payload() {
    let pool = vec![Constant::Invalid, utf8("SourceFile")];
    let mut r = ByteReader::new(vec![0, 1, 0, 1, 0, 0, 0, 3, 0, 7, 0]);
    assert!(matches!(read_attribute_table(&pool, &mut r), Err(JavaError::Malformed)));
    let mut r = ByteReader::new(vec![0, 1, 0, 1, 0, 0, 0, 2, 0, 7]);
    let attrs = read_attribute_table(&pool, &mut r).unwrap();
    assert!(matches!(attrs[0], Attribute::SourceFile { sourcefile_index: 7 }));
    let mut out = Vec::new();
    write_attribute_table(&pool, &mut out, &attrs).unwrap();
    assert_eq!(out, vec![0, 1, 0, 1, 0, 0, 0, 2, 0, 7]);
}

#[test]
fn attribute_name_through_second_entry_is_not_canonical() {
    let pool = vec![Constant::Invalid, utf8("Synthetic"), utf8("Synthetic")];
    let mut r = ByteReader::new(vec![0, 1, 0, 2, 0, 0, 0, 0]);
    let attrs = read_attribute_table(&pool, &mut r).unwrap();
    assert!(matches!(attrs[0], Attribute::Synthetic));
    assert!(!r.canonical);
    let mut out = Vec::new();
    write_attribute_table(&pool, &mut out, &attrs).unwrap();
    assert_eq!(out, vec![0, 1, 0, 1, 0, 0, 0, 0]);
}

#[test]
fn big_endian_reads() {
    let mut r = ByteReader::new(vec![0x12, 0x34, 0x56, 0x78, 0x9A, 0xBC, 0xDE, 0xF0, 1, 2, 3, 4, 5, 6, 7, 8, 9]);
    assert_eq!(r.read_u16().unwrap(), 0x1234);
    assert_eq!(r.read_u32().unwrap(), 0x5678_9ABC);
    assert_eq!(r.read_u8().unwrap(), 0xDE);
    assert_eq!(r.read_u8().unwrap(), 0xF0);
    assert_eq!(r.read_u64().unwrap(), 0x0102_0304_0506_0708);
    assert_eq!(r.read_u16(), Err(JavaError::UnexpectedEnd));
    assert_eq!(r.pos, 16);
}

#[test]
fn big_endian_writes() {
    let mut out = Vec::new();
    jvmclass::bytes::push_u16(&mut out, 0x1234);
    jvmclass::bytes::push_u32(&mut out, 0x5678_9ABC);
    jvmclass::bytes::push_u64(&mut out, 0x0102_0304_0506_0708);
    assert_eq!(out, vec![0x12, 0x34, 0x56, 0x78, 0x9A, 0xBC, 1, 2, 3, 4, 5, 6, 7, 8]);
}

#[test]
fn numeric_constants_keep_their_bits() {
    let pool = vec![
        Constant::Invalid,
        Constant::Integer(-2),
        Constant::Float(0x7FC0_0000),
        Constant::Double(0x8000_0000_0000_0000),
        Constant::Invalid,
        Constant::Long(-1),
        Constant::Invalid,
        Constant::MethodHandle { reference_kind: 6, reference_index: 1 },
    ];
    let mut out = Vec::new();
    write_constant_pool(&mut out, &pool).unwrap();
    assert_eq!(&out[2..7], &[3, 0xFF, 0xFF, 0xFF, 0xFE]);
    let mut r = ByteReader::new(out);
    assert_eq!(read_constant_pool(&mut r).unwrap(), pool);
}

#[test]
fn empty_pool_count_is_rejected() {
    let mut r = ByteReader::new(vec![0, 0]);
    assert_eq!(read_constant_pool(&mut r), Err(JavaError::Malformed));
}

#[test]
fn flags_decode_again_to_the_same_set() {
    for ctx in [FlagContext::Class, FlagContext::Method, FlagContext::ModuleRequires] {
        for w in [0xFFFFu16, 0x0A0A, 0x8421] {
            let once = extract_flags(w, ctx);
            assert_eq!(extract_flags(compact_flags(&once, ctx), ctx), once);
        }
    }
}

#[test]
fn unknown_attribute_bytes() {
    let pool = vec![Constant::Invalid, utf8("Other"), utf8("Blob")];
    let attrs = vec![Attribute::Unknown { name: b"Blob".to_vec(), data: vec![1, 2, 3] }];
    let mut out = Vec::new();
    write_attribute_table(&pool, &mut out, &attrs).unwrap();
    assert_eq!(out, vec![0, 1, 0, 2, 0, 0, 0, 3, 1, 2, 3]);
    let mut r = ByteReader::new(out);
    let back = read_attribute_table(&pool, &mut r).unwrap();
    assert!(r.canonical);
    assert!(matches!(&back[0], Attribute::Unknown { name, data } if name == b"Blob" && data == &vec![1, 2, 3]));
}

#[test]
fn switch_padding_follows_input_offset() {
    let code = [0x15, 0x00, 0xAA, 0, 0, 0, 0, 4, 0, 0, 0, 0, 0, 0, 0, 0, 0, 0, 0, 4];
    let mut r = ByteReader::new(code_block(&code));
    let (d, offsets) = jvmclass::instructions::decompile_with_offsets(&mut r).unwrap();
    assert_eq!(offsets, vec![0, 2]);
    assert_eq!(
        d[1],
        Instruction::TableSwitch { padding: 1, minimum: 0, maximum: 0, jump_targets: vec![4], default: 4 }
    );
    assert!(!r.canonical);
}

fn nested_annotation(levels: usize) -> jvmclass::Annotation {
    let mut v = jvmclass::ElementValue::ClassInfoIndex(1);
    for _ in 0..levels {
        v = jvmclass::ElementValue::ArrayValue(vec![v]);
    }
    jvmclass::Annotation {
        type_index: 1,
        element_value_pairs: vec![jvmclass::ElementValuePair { element_name_index: 2, value: v }],
    }
}

#[test]
fn nesting_is_bounded() {
    let mut out = Vec::new();
    jvmclass::annotations::write_annotation(&mut out, &nested_annotation(10));
    let mut r = ByteReader::new(out.clone());
    jvmclass::annotations::read_annotation(&mut r).unwrap();
    assert!(r.at_end());
    let mut deep = Vec::new();
    jvmclass::annotations::write_annotation(&mut deep, &nested_annotation(70));
    let mut r = ByteReader::new(deep);
    assert!(matches!(jvmclass::annotations::read_annotation(&mut r), Err(JavaError::Malformed)));
}
