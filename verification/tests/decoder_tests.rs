use nova_wasm::{Decoder, ExportKind, Opcode, SectionId, ValType, WASM_MAGIC, WASM_VERSION};

#[test]
fn test_magic_and_version() {
    let mut binary = Vec::new();
    binary.extend_from_slice(&WASM_MAGIC);
    binary.extend_from_slice(&WASM_VERSION);

    let mut decoder = Decoder::new(&binary);
    assert_eq!(decoder.read_magic(), Some(WASM_MAGIC));
    assert_eq!(decoder.read_version(), Some(WASM_VERSION));
}

#[test]
fn test_leb128_signed_and_unsigned() {
    let unsigned = [0xE5, 0x8E, 0x26];
    let mut d1 = Decoder::new(&unsigned);
    assert_eq!(d1.read_u32_leb128(), Some(624485));

    // -624485 in signed LEB128: 0x9B 0xF1 0x59
    let signed = [0x9B, 0xF1, 0x59];
    let mut d2 = Decoder::new(&signed);
    assert_eq!(d2.read_i32_leb128(), Some(-624485));
}

#[test]
fn test_opcode_decoding() {
    // i32.const 42, local.get 0, i32.add, end
    let code = [0x41, 0x2A, 0x20, 0x00, 0x6A, 0x0B];
    let mut decoder = Decoder::new(&code);

    assert_eq!(decoder.decode_next_opcode(), Some(Opcode::I32Const(42)));
    assert_eq!(decoder.decode_next_opcode(), Some(Opcode::LocalGet(0)));
    assert_eq!(decoder.decode_next_opcode(), Some(Opcode::I32Add));
    assert_eq!(decoder.decode_next_opcode(), Some(Opcode::End));
}

#[test]
fn test_export_decoding() {
    // 1 export: "add", func index 0
    let export_data = [
        0x01, // 1 export
        0x03, b'a', b'd', b'd', // name "add"
        0x00, // ExportKind::Func
        0x00, // index 0
    ];
    let mut decoder = Decoder::new(&export_data);
    let exports = decoder.decode_export_section().unwrap();
    assert_eq!(exports.len(), 1);
    assert_eq!(exports[0].name, "add");
    assert_eq!(exports[0].kind, ExportKind::Func);
    assert_eq!(exports[0].index, 0);
}

#[test]
fn test_magic_rejects_short_or_wrong_input() {
    let short = [0x00, 0x61, 0x73];
    let mut d = Decoder::new(&short);
    assert_eq!(d.read_magic(), None);

    let wrong = [0x00, 0x61, 0x73, 0x6e];
    let mut d = Decoder::new(&wrong);
    assert_eq!(d.read_magic(), None);
}

#[test]
fn test_version_rejects_other_versions() {
    let v2 = [0x02, 0x00, 0x00, 0x00];
    let mut d = Decoder::new(&v2);
    assert_eq!(d.read_version(), None);
}

#[test]
fn test_read_bytes_moves_the_offset() {
    let data = [1u8, 2, 3, 4, 5];
    let mut d = Decoder::new(&data);
    assert_eq!(d.read_bytes(2), Some(&data[0..2]));
    assert_eq!(d.read_bytes(2), Some(&data[2..4]));
    assert_eq!(d.read_bytes(2), None);
    assert_eq!(d.read_bytes(1), Some(&data[4..5]));
    assert_eq!(d.read_bytes(0), Some(&data[5..5]));
}

#[test]
fn test_u32_leb128_limits() {
    let max = [0xFF, 0xFF, 0xFF, 0xFF, 0x0F];
    let mut d = Decoder::new(&max);
    assert_eq!(d.read_u32_leb128(), Some(u32::MAX));

    let too_long = [0x80, 0x80, 0x80, 0x80, 0x80, 0x00];
    let mut d = Decoder::new(&too_long);
    assert_eq!(d.read_u32_leb128(), None);

    let truncated = [0x80, 0x80];
    let mut d = Decoder::new(&truncated);
    assert_eq!(d.read_u32_leb128(), None);

    let zero = [0x00];
    let mut d = Decoder::new(&zero);
    assert_eq!(d.read_u32_leb128(), Some(0));
}

#[test]
fn test_i32_leb128_values() {
    let minus_one = [0x7F];
    let mut d = Decoder::new(&minus_one);
    assert_eq!(d.read_i32_leb128(), Some(-1));

    let min = [0x80, 0x80, 0x80, 0x80, 0x78];
    let mut d = Decoder::new(&min);
    assert_eq!(d.read_i32_leb128(), Some(i32::MIN));

    let sixty_three = [0x3F];
    let mut d = Decoder::new(&sixty_three);
    assert_eq!(d.read_i32_leb128(), Some(63));

    let minus_sixty_four = [0x40];
    let mut d = Decoder::new(&minus_sixty_four);
    assert_eq!(d.read_i32_leb128(), Some(-64));
}

#[test]
fn test_read_section() {
    let data = [0x01, 0x03, 0xAA, 0xBB, 0xCC, 0x0A];
    let mut d = Decoder::new(&data);
    let section = d.read_section().unwrap();
    assert_eq!(section.id, SectionId::Type);
    assert_eq!(section.size, 3);
    assert_eq!(section.data, &[0xAA, 0xBB, 0xCC]);

    let unknown_id = [0x0D, 0x00];
    let mut d = Decoder::new(&unknown_id);
    assert!(d.read_section().is_none());

    let too_short = [0x03, 0x05, 0x01];
    let mut d = Decoder::new(&too_short);
    assert!(d.read_section().is_none());
}

#[test]
fn test_export_section_errors() {
    let bad_utf8 = [0x01, 0x02, 0xC3, 0x28, 0x00, 0x00];
    let mut d = Decoder::new(&bad_utf8);
    assert!(d.decode_export_section().is_none());

    let bad_kind = [0x01, 0x01, b'x', 0x07, 0x00];
    let mut d = Decoder::new(&bad_kind);
    assert!(d.decode_export_section().is_none());

    let missing_entry = [0x02, 0x01, b'x', 0x00, 0x00];
    let mut d = Decoder::new(&missing_entry);
    assert!(d.decode_export_section().is_none());
}

#[test]
fn test_export_section_two_entries() {
    let data = [0x02, 0x02, 0xC3, 0xA9, 0x02, 0x00, 0x03, b'f', b'o', b'o', 0x00, 0x85, 0x01];
    let mut d = Decoder::new(&data);
    let exports = d.decode_export_section().unwrap();
    assert_eq!(exports.len(), 2);
    assert_eq!(exports[0].name, "\u{e9}");
    assert_eq!(exports[0].kind, ExportKind::Memory);
    assert_eq!(exports[0].index, 0);
    assert_eq!(exports[1].name, "foo");
    assert_eq!(exports[1].kind, ExportKind::Func);
    assert_eq!(exports[1].index, 133);
}

#[test]
fn test_opcodes_with_immediates() {
    let code = [0x0C, 0x01, 0x0D, 0x02, 0x10, 0x05, 0x21, 0x03, 0x41, 0x7F, 0x99, 0x42];
    let mut d = Decoder::new(&code);
    assert_eq!(d.decode_next_opcode(), Some(Opcode::Br(1)));
    assert_eq!(d.decode_next_opcode(), Some(Opcode::BrIf(2)));
    assert_eq!(d.decode_next_opcode(), Some(Opcode::Call(5)));
    assert_eq!(d.decode_next_opcode(), Some(Opcode::LocalSet(3)));
    assert_eq!(d.decode_next_opcode(), Some(Opcode::I32Const(-1)));
    assert_eq!(d.decode_next_opcode(), Some(Opcode::Unknown(0x99)));
    assert_eq!(d.decode_next_opcode(), Some(Opcode::Unknown(0x42)));
    assert_eq!(d.decode_next_opcode(), None);

    let missing_immediate = [0x20];
    let mut d = Decoder::new(&missing_immediate);
    assert_eq!(d.decode_next_opcode(), None);
}

#[test]
fn test_from_u8_tables() {
    assert_eq!(ValType::from_u8(0x7F), Some(ValType::I32));
    assert_eq!(ValType::from_u8(0x7C), Some(ValType::F64));
    assert_eq!(ValType::from_u8(0x6F), Some(ValType::ExternRef));
    assert_eq!(ValType::from_u8(0x00), None);
    assert_eq!(ExportKind::from_u8(0x03), Some(ExportKind::Global));
    assert_eq!(ExportKind::from_u8(0x04), None);
    assert_eq!(SectionId::from_u8(0), Some(SectionId::Custom));
    assert_eq!(SectionId::from_u8(10), Some(SectionId::Code));
    assert_eq!(SectionId::from_u8(12), Some(SectionId::DataCount));
    assert_eq!(SectionId::from_u8(13), None);
}
