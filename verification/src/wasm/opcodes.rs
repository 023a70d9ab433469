//! Byte values of the WebAssembly binary format that the emitter writes.
use vstd::prelude::*;

verus! {

/// Section identifiers.
pub const SECTION_TYPE: u8 = 0x01;
pub const SECTION_IMPORT: u8 = 0x02;
pub const SECTION_FUNCTION: u8 = 0x03;
pub const SECTION_MEMORY: u8 = 0x05;
pub const SECTION_EXPORT: u8 = 0x07;
pub const SECTION_CODE: u8 = 0x0A;
pub const SECTION_DATA: u8 = 0x0B;

/// The form byte of a function type.
pub const FUNC_TYPE: u8 = 0x60;

/// Import descriptor of a function.
pub const IMPORT_DESC_FUNC: u8 = 0x00;

/// Export descriptors.
pub const EXPORT_DESC_FUNC: u8 = 0x00;
pub const EXPORT_DESC_MEM: u8 = 0x02;

/// Value types.
pub const VAL_TYPE_I32: u8 = 0x7F;
pub const VAL_TYPE_I64: u8 = 0x7E;
pub const VAL_TYPE_F32: u8 = 0x7D;
pub const VAL_TYPE_F64: u8 = 0x7C;

/// The empty block type.
pub const BLOCK_EMPTY: u8 = 0x40;

/// Control instructions.
pub const BLOCK: u8 = 0x02;
pub const LOOP: u8 = 0x03;
pub const IF: u8 = 0x04;
pub const ELSE: u8 = 0x05;
pub const END: u8 = 0x0B;
pub const BR: u8 = 0x0C;
pub const BR_IF: u8 = 0x0D;
pub const RETURN: u8 = 0x0F;
pub const CALL: u8 = 0x10;
pub const DROP: u8 = 0x1A;

/// Variable instructions.
pub const LOCAL_GET: u8 = 0x20;
pub const LOCAL_SET: u8 = 0x21;

/// Memory instructions.
pub const I32_LOAD: u8 = 0x28;
pub const I64_LOAD: u8 = 0x29;
pub const F32_LOAD: u8 = 0x2A;
pub const F64_LOAD: u8 = 0x2B;
pub const I32_STORE: u8 = 0x36;
pub const I64_STORE: u8 = 0x37;
pub const F32_STORE: u8 = 0x38;
pub const F64_STORE: u8 = 0x39;

/// Constants.
pub const I32_CONST: u8 = 0x41;
pub const F32_CONST: u8 = 0x43;

/// 32-bit integer arithmetic and comparison.
pub const I32_EQZ: u8 = 0x45;
pub const I32_EQ: u8 = 0x46;
pub const I32_NE: u8 = 0x47;
pub const I32_LT_S: u8 = 0x48;
pub const I32_GT_S: u8 = 0x4A;
pub const I32_LE_S: u8 = 0x4C;
pub const I32_GE_S: u8 = 0x4E;
pub const I32_ADD: u8 = 0x6A;
pub const I32_SUB: u8 = 0x6B;
pub const I32_MUL: u8 = 0x6C;
pub const I32_DIV_S: u8 = 0x6D;
pub const I32_REM_S: u8 = 0x6F;
pub const I32_AND: u8 = 0x71;
pub const I32_OR: u8 = 0x72;
pub const I32_XOR: u8 = 0x73;
pub const I32_SHL: u8 = 0x74;
pub const I32_SHR_S: u8 = 0x75;

/// What the WebAssembly `i32` binary instruction with opcode `byte`
/// computes from its operands `a` and `b`, as the core specification defines
/// it: nothing where it traps or where `byte` is no such instruction.
pub open spec fn i32_instruction_value(byte: u8, a: i32, b: i32) -> Option<i32> {
    let bool_val = |c: bool| if c { 1i32 } else { 0i32 };
    let k = (b as u32) % 32;
    let q = |x: int, y: int| {
        let m = (if x < 0 { -x } else { x }) / (if y < 0 { -y } else { y });
        if (x < 0) == (y < 0) { m } else { -m }
    };
    if byte == 0x46 { Some(bool_val(a == b)) }
    else if byte == 0x47 { Some(bool_val(a != b)) }
    else if byte == 0x48 { Some(bool_val(a < b)) }
    else if byte == 0x4A { Some(bool_val(a > b)) }
    else if byte == 0x4C { Some(bool_val(a <= b)) }
    else if byte == 0x4E { Some(bool_val(a >= b)) }
    else if byte == 0x6A { Some((a + b) as i32) }
    else if byte == 0x6B { Some((a - b) as i32) }
    else if byte == 0x6C { Some((a * b) as i32) }
    else if byte == 0x6D { if b == 0 || (a == i32::MIN && b == -1) { None } else { Some(q(a as int, b as int) as i32) } }
    else if byte == 0x6F { if b == 0 { None } else { Some((a - b * q(a as int, b as int)) as i32) } }
    else if byte == 0x71 { Some(a & b) }
    else if byte == 0x72 { Some(a | b) }
    else if byte == 0x73 { Some(a ^ b) }
    else if byte == 0x74 { Some(a << k) }
    else if byte == 0x75 { Some(a >> k) }
    else { None }
}

/// The text-format name of the WebAssembly `i32` binary instruction with
/// opcode `byte`, as the core specification writes it.
pub open spec fn i32_instruction_name(byte: u8) -> Seq<char> {
    if byte == 0x46 { "i32.eq"@ }
    else if byte == 0x47 { "i32.ne"@ }
    else if byte == 0x48 { "i32.lt_s"@ }
    else if byte == 0x4A { "i32.gt_s"@ }
    else if byte == 0x4C { "i32.le_s"@ }
    else if byte == 0x4E { "i32.ge_s"@ }
    else if byte == 0x6A { "i32.add"@ }
    else if byte == 0x6B { "i32.sub"@ }
    else if byte == 0x6C { "i32.mul"@ }
    else if byte == 0x6D { "i32.div_s"@ }
    else if byte == 0x6F { "i32.rem_s"@ }
    else if byte == 0x71 { "i32.and"@ }
    else if byte == 0x72 { "i32.or"@ }
    else if byte == 0x73 { "i32.xor"@ }
    else if byte == 0x74 { "i32.shl"@ }
    else if byte == 0x75 { "i32.shr_s"@ }
    else if byte == 0x45 { "i32.eqz"@ }
    else { Seq::empty() }
}

/// What `i32.eqz` (opcode 0x45) computes from its operand: 1 for zero, else 0.
pub open spec fn i32_test_value(byte: u8, a: i32) -> Option<i32> {
    if byte == 0x45 { Some(if a == 0 { 1i32 } else { 0i32 }) } else { None }
}

/// The text-format name of a value type byte, as the core specification
/// writes it.
pub open spec fn value_type_name(byte: u8) -> Seq<char> {
    if byte == 0x7F { "i32"@ }
    else if byte == 0x7E { "i64"@ }
    else if byte == 0x7D { "f32"@ }
    else if byte == 0x7C { "f64"@ }
    else { Seq::empty() }
}

/// The memory instruction with opcode `byte`: the value type byte it loads
/// or stores, and whether it stores (the core specification's table).
pub open spec fn memory_instruction(byte: u8) -> Option<(u8, bool)> {
    if byte == 0x28 { Some((0x7F, false)) }
    else if byte == 0x29 { Some((0x7E, false)) }
    else if byte == 0x2A { Some((0x7D, false)) }
    else if byte == 0x2B { Some((0x7C, false)) }
    else if byte == 0x36 { Some((0x7F, true)) }
    else if byte == 0x37 { Some((0x7E, true)) }
    else if byte == 0x38 { Some((0x7D, true)) }
    else if byte == 0x39 { Some((0x7C, true)) }
    else { None }
}

} // verus!
