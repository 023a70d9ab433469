//! Nova-WASM: WebAssembly binary format decoder, and the Nova compiler that
//! produces WebAssembly from Nova source.
use vstd::prelude::*;
use vstd::utf8::{valid_utf8, decode_utf8};

pub mod ast;
pub mod token;
pub mod typechecker;
pub mod lexer;
pub mod parser;
pub mod text;
pub mod wasm;
pub mod compiler;

pub use crate::compiler::{compile_to_wasm, compile_to_wat};

use crate::wasm::leb128::{read_sleb32, read_sleb32_from, read_uleb32, read_uleb32_from, pow128,
    lemma_accumulate, lemma_sign_fill, lemma_u32_as_i32, i32_from_bits, uleb128, sleb128,
    lemma_uleb32_roundtrip, lemma_sleb32_roundtrip};

verus! {

/// The four bytes every WebAssembly binary starts with: `\0asm`.
pub const WASM_MAGIC: [u8; 4] = [0x00, 0x61, 0x73, 0x6d];

/// The binary format version this decoder accepts: 1.
pub const WASM_VERSION: [u8; 4] = [0x01, 0x00, 0x00, 0x00];

/// A WebAssembly value type.
#[derive(Debug, Clone, Copy, PartialEq, Eq, Structural)]
pub enum ValType {
    I32,
    I64,
    F32,
    F64,
    V128,
    FuncRef,
    ExternRef,
}

/// The byte that stands for each value type in the binary format.
pub open spec fn val_type_byte(t: ValType) -> u8 {
    match t {
        ValType::I32 => 0x7F,
        ValType::I64 => 0x7E,
        ValType::F32 => 0x7D,
        ValType::F64 => 0x7C,
        ValType::V128 => 0x7B,
        ValType::FuncRef => 0x70,
        ValType::ExternRef => 0x6F,
    }
}

/// The value type that `b` encodes, if any.
pub open spec fn val_type_of(b: u8) -> Option<ValType> {
    if b == 0x7F {
        Some(ValType::I32)
    } else if b == 0x7E {
        Some(ValType::I64)
    } else if b == 0x7D {
        Some(ValType::F32)
    } else if b == 0x7C {
        Some(ValType::F64)
    } else if b == 0x7B {
        Some(ValType::V128)
    } else if b == 0x70 {
        Some(ValType::FuncRef)
    } else if b == 0x6F {
        Some(ValType::ExternRef)
    } else {
        None
    }
}

impl ValType {
    /// The value type that `b` encodes, if any.
    pub fn from_u8(b: u8) -> (r: Option<Self>)
        ensures
            r == val_type_of(b),
            r matches Some(t) ==> val_type_byte(t) == b,
    {
        match b {
            0x7F => Some(ValType::I32),
            0x7E => Some(ValType::I64),
            0x7D => Some(ValType::F32),
            0x7C => Some(ValType::F64),
            0x7B => Some(ValType::V128),
            0x70 => Some(ValType::FuncRef),
            0x6F => Some(ValType::ExternRef),
            _ => None,
        }
    }
}

/// A function signature: parameter and result types.
#[derive(Debug, Clone, PartialEq, Eq)]
pub struct FuncType {
    pub params: Vec<ValType>,
    pub results: Vec<ValType>,
}

/// One entry of the export section.
#[derive(Debug, Clone, PartialEq, Eq)]
pub struct ExportEntry {
    pub name: String,
    pub kind: ExportKind,
    pub index: u32,
}

/// What an export refers to.
#[derive(Debug, Clone, Copy, PartialEq, Eq, Structural)]
pub enum ExportKind {
    Func,
    Table,
    Memory,
    Global,
}

/// The byte that stands for each export kind in the binary format.
pub open spec fn export_kind_byte(k: ExportKind) -> u8 {
    match k {
        ExportKind::Func => 0x00,
        ExportKind::Table => 0x01,
        ExportKind::Memory => 0x02,
        ExportKind::Global => 0x03,
    }
}

/// The export kind that `b` encodes, if any.
pub open spec fn export_kind_of(b: u8) -> Option<ExportKind> {
    if b == 0 {
        Some(ExportKind::Func)
    } else if b == 1 {
        Some(ExportKind::Table)
    } else if b == 2 {
        Some(ExportKind::Memory)
    } else if b == 3 {
        Some(ExportKind::Global)
    } else {
        None
    }
}

impl ExportKind {
    /// The export kind that `b` encodes, if any.
    pub fn from_u8(b: u8) -> (r: Option<Self>)
        ensures
            r == export_kind_of(b),
            r matches Some(k) ==> export_kind_byte(k) == b,
    {
        match b {
            0x00 => Some(ExportKind::Func),
            0x01 => Some(ExportKind::Table),
            0x02 => Some(ExportKind::Memory),
            0x03 => Some(ExportKind::Global),
            _ => None,
        }
    }
}

/// An instruction of a function body, as the decoder reads it.
#[derive(Debug, Clone, PartialEq, Eq, Structural)]
pub enum Opcode {
    Unreachable,
    Nop,
    Block,
    Loop,
    If,
    Else,
    End,
    Br(u32),
    BrIf(u32),
    Return,
    Call(u32),
    Drop,
    Select,
    LocalGet(u32),
    LocalSet(u32),
    LocalTee(u32),
    GlobalGet(u32),
    GlobalSet(u32),
    I32Const(i32),
    I64Const(i64),
    I32Add,
    I32Sub,
    I32Mul,
    I32DivS,
    I32DivU,
    Unknown(u8),
}

/// The identifier of a module section.
#[derive(Debug, PartialEq, Eq, Structural)]
pub enum SectionId {
    Custom,
    Type,
    Import,
    Function,
    Table,
    Memory,
    Global,
    Export,
    Start,
    Element,
    Code,
    Data,
    DataCount,
}

/// The section identifier that `id` encodes, if any (identifiers 0 to 12).
pub open spec fn section_id_of(id: u8) -> Option<SectionId> {
    if id == 0 {
        Some(SectionId::Custom)
    } else if id == 1 {
        Some(SectionId::Type)
    } else if id == 2 {
        Some(SectionId::Import)
    } else if id == 3 {
        Some(SectionId::Function)
    } else if id == 4 {
        Some(SectionId::Table)
    } else if id == 5 {
        Some(SectionId::Memory)
    } else if id == 6 {
        Some(SectionId::Global)
    } else if id == 7 {
        Some(SectionId::Export)
    } else if id == 8 {
        Some(SectionId::Start)
    } else if id == 9 {
        Some(SectionId::Element)
    } else if id == 10 {
        Some(SectionId::Code)
    } else if id == 11 {
        Some(SectionId::Data)
    } else if id == 12 {
        Some(SectionId::DataCount)
    } else {
        None
    }
}

impl SectionId {
    /// The section identifier that `id` encodes, if any.
    pub fn from_u8(id: u8) -> (r: Option<Self>)
        ensures
            r == section_id_of(id),
    {
        match id {
            0 => Some(SectionId::Custom),
            1 => Some(SectionId::Type),
            2 => Some(SectionId::Import),
            3 => Some(SectionId::Function),
            4 => Some(SectionId::Table),
            5 => Some(SectionId::Memory),
            6 => Some(SectionId::Global),
            7 => Some(SectionId::Export),
            8 => Some(SectionId::Start),
            9 => Some(SectionId::Element),
            10 => Some(SectionId::Code),
            11 => Some(SectionId::Data),
            12 => Some(SectionId::DataCount),
            _ => None,
        }
    }
}

/// A section: its identifier, its declared size and its payload.
pub struct WasmSection<'a> {
    pub id: SectionId,
    pub size: u32,
    pub data: &'a [u8],
}

/// The magic bytes as a sequence.
pub open spec fn wasm_magic() -> Seq<u8> {
    seq![0x00u8, 0x61u8, 0x73u8, 0x6du8]
}

/// The version bytes as a sequence.
pub open spec fn wasm_version() -> Seq<u8> {
    seq![0x01u8, 0x00u8, 0x00u8, 0x00u8]
}

/// An export entry as plain values: name, kind and index.
pub open spec fn entry_view(e: ExportEntry) -> (Seq<char>, ExportKind, u32) {
    (e.name@, e.kind, e.index)
}

/// Reading one export entry from the front of `s`: a LEB128 name length,
/// that many bytes of UTF-8 name, a kind byte and a LEB128 index. Gives the
/// entry, if one is read, and the number of bytes consumed.
pub open spec fn read_export_entry(s: Seq<u8>) -> (Option<(Seq<char>, ExportKind, u32)>, nat) {
    let (len, n1) = read_uleb32(s);
    match len {
        None => (None, n1),
        Some(l) => {
            let s1 = s.subrange(n1 as int, s.len() as int);
            if l as nat > s1.len() {
                (None, n1)
            } else if !valid_utf8(s1.subrange(0, l as int)) {
                (None, n1 + l as nat)
            } else if s1.len() < l + 1 {
                (None, n1 + l as nat)
            } else {
                match export_kind_of(s1[l as int]) {
                    None => (None, n1 + l as nat + 1),
                    Some(kind) => {
                        let (idx, n3) = read_uleb32(s1.subrange(l + 1, s1.len() as int));
                        match idx {
                            None => (None, n1 + l as nat + 1 + n3),
                            Some(i) => (Some((decode_utf8(s1.subrange(0, l as int)), kind, i)), n1 + l as nat + 1 + n3),
                        }
                    },
                }
            }
        },
    }
}

/// Reading `count` export entries one after the other from the front of `s`.
pub open spec fn read_export_entries(s: Seq<u8>, count: nat) -> (Option<Seq<(Seq<char>, ExportKind, u32)>>, nat)
    decreases count,
{
    if count == 0 {
        (Some(seq![]), 0)
    } else {
        let (e, n) = read_export_entry(s);
        match e {
            None => (None, n),
            Some(x) => {
                let (rest, m) = read_export_entries(s.subrange(n as int, s.len() as int), (count - 1) as nat);
                match rest {
                    None => (None, n + m),
                    Some(r) => (Some(seq![x] + r), n + m),
                }
            },
        }
    }
}

/// Reading an export section payload: a LEB128 count, then that many entries.
pub open spec fn read_export_section(s: Seq<u8>) -> (Option<Seq<(Seq<char>, ExportKind, u32)>>, nat) {
    let (c, n0) = read_uleb32(s);
    match c {
        None => (None, n0),
        Some(count) => {
            let (es, m) = read_export_entries(s.subrange(n0 as int, s.len() as int), count as nat);
            (es, n0 + m)
        },
    }
}

/// Reading one instruction from the front of `s`: its opcode byte and, for
/// the instructions that take one, a LEB128 immediate.
pub open spec fn read_opcode(s: Seq<u8>) -> (Option<Opcode>, nat) {
    if s.len() == 0 {
        (None, 0)
    } else {
        let b = s[0];
        let rest = s.subrange(1, s.len() as int);
        let (u, nu) = read_uleb32(rest);
        let (i, ni) = read_sleb32(rest);
        if b == 0x00 { (Some(Opcode::Unreachable), 1) }
        else if b == 0x01 { (Some(Opcode::Nop), 1) }
        else if b == 0x02 { (Some(Opcode::Block), 1) }
        else if b == 0x03 { (Some(Opcode::Loop), 1) }
        else if b == 0x04 { (Some(Opcode::If), 1) }
        else if b == 0x05 { (Some(Opcode::Else), 1) }
        else if b == 0x0B { (Some(Opcode::End), 1) }
        else if b == 0x0C { (match u { Some(x) => Some(Opcode::Br(x)), None => None }, 1 + nu) }
        else if b == 0x0D { (match u { Some(x) => Some(Opcode::BrIf(x)), None => None }, 1 + nu) }
        else if b == 0x0F { (Some(Opcode::Return), 1) }
        else if b == 0x10 { (match u { Some(x) => Some(Opcode::Call(x)), None => None }, 1 + nu) }
        else if b == 0x1A { (Some(Opcode::Drop), 1) }
        else if b == 0x1B { (Some(Opcode::Select), 1) }
        else if b == 0x20 { (match u { Some(x) => Some(Opcode::LocalGet(x)), None => None }, 1 + nu) }
        else if b == 0x21 { (match u { Some(x) => Some(Opcode::LocalSet(x)), None => None }, 1 + nu) }
        else if b == 0x22 { (match u { Some(x) => Some(Opcode::LocalTee(x)), None => None }, 1 + nu) }
        else if b == 0x23 { (match u { Some(x) => Some(Opcode::GlobalGet(x)), None => None }, 1 + nu) }
        else if b == 0x24 { (match u { Some(x) => Some(Opcode::GlobalSet(x)), None => None }, 1 + nu) }
        else if b == 0x41 { (match i { Some(x) => Some(Opcode::I32Const(x)), None => None }, 1 + ni) }
        else if b == 0x6A { (Some(Opcode::I32Add), 1) }
        else if b == 0x6B { (Some(Opcode::I32Sub), 1) }
        else if b == 0x6C { (Some(Opcode::I32Mul), 1) }
        else if b == 0x6D { (Some(Opcode::I32DivS), 1) }
        else if b == 0x6E { (Some(Opcode::I32DivU), 1) }
        else { (Some(Opcode::Unknown(b)), 1) }
    }
}

/// The binary encoding of an instruction, as the WebAssembly core
/// specification writes it: its opcode byte, then its immediate in LEB128
/// (unsigned for indices and depths, signed for `i32.const`). Nothing for
/// `i64.const` and unknown bytes, which the decoder does not name.
pub open spec fn instruction_bytes(o: Opcode) -> Option<Seq<u8>> {
    match o {
        Opcode::Unreachable => Some(seq![0x00u8]),
        Opcode::Nop => Some(seq![0x01u8]),
        Opcode::Block => Some(seq![0x02u8]),
        Opcode::Loop => Some(seq![0x03u8]),
        Opcode::If => Some(seq![0x04u8]),
        Opcode::Else => Some(seq![0x05u8]),
        Opcode::End => Some(seq![0x0Bu8]),
        Opcode::Br(d) => Some(seq![0x0Cu8] + uleb128(d as nat)),
        Opcode::BrIf(d) => Some(seq![0x0Du8] + uleb128(d as nat)),
        Opcode::Return => Some(seq![0x0Fu8]),
        Opcode::Call(f) => Some(seq![0x10u8] + uleb128(f as nat)),
        Opcode::Drop => Some(seq![0x1Au8]),
        Opcode::Select => Some(seq![0x1Bu8]),
        Opcode::LocalGet(x) => Some(seq![0x20u8] + uleb128(x as nat)),
        Opcode::LocalSet(x) => Some(seq![0x21u8] + uleb128(x as nat)),
        Opcode::LocalTee(x) => Some(seq![0x22u8] + uleb128(x as nat)),
        Opcode::GlobalGet(x) => Some(seq![0x23u8] + uleb128(x as nat)),
        Opcode::GlobalSet(x) => Some(seq![0x24u8] + uleb128(x as nat)),
        Opcode::I32Const(v) => Some(seq![0x41u8] + sleb128(v as int)),
        Opcode::I64Const(_) => None,
        Opcode::I32Add => Some(seq![0x6Au8]),
        Opcode::I32Sub => Some(seq![0x6Bu8]),
        Opcode::I32Mul => Some(seq![0x6Cu8]),
        Opcode::I32DivS => Some(seq![0x6Du8]),
        Opcode::I32DivU => Some(seq![0x6Eu8]),
        Opcode::Unknown(_) => None,
    }
}

/// The decoder reads back every instruction it names from its standard
/// encoding, whatever follows it: the instruction, and exactly its bytes.
pub proof fn lemma_decode_instruction(o: Opcode, rest: Seq<u8>)
    requires
        instruction_bytes(o) is Some,
    ensures
        read_opcode(instruction_bytes(o)->0 + rest) == (Some(o), instruction_bytes(o)->0.len()),
{
    let b = instruction_bytes(o)->0;
    let s = b + rest;
    let tail = s.subrange(1, s.len() as int);
    match o {
        Opcode::Br(x) | Opcode::BrIf(x) | Opcode::Call(x) | Opcode::LocalGet(x) | Opcode::LocalSet(x)
        | Opcode::LocalTee(x) | Opcode::GlobalGet(x) | Opcode::GlobalSet(x) => {
            assert(tail =~= uleb128(x as nat) + rest);
            lemma_uleb32_roundtrip(x, rest);
        },
        Opcode::I32Const(v) => {
            assert(tail =~= sleb128(v as int) + rest);
            lemma_sleb32_roundtrip(v, rest);
        },
        _ => {},
    }
}

/// `std::str::from_utf8`, keeping only the success case: the bytes read as a
/// string exactly when they are well-formed UTF-8.
#[verifier::external_body]
fn str_from_utf8(bytes: &[u8]) -> (r: Option<&str>)
    ensures
        r is Some <==> valid_utf8(bytes@),
        r matches Some(t) ==> t@ == decode_utf8(bytes@),
{
    std::str::from_utf8(bytes).ok()
}

/// A cursor over a WebAssembly binary.
pub struct Decoder<'a> {
    data: &'a [u8],
    offset: usize,
}

impl<'a> Decoder<'a> {
    /// The bytes being decoded.
    pub closed spec fn data(&self) -> Seq<u8> {
        self.data@
    }

    /// How many bytes have been read.
    pub closed spec fn pos(&self) -> nat {
        self.offset as nat
    }

    /// The bytes not yet read.
    pub open spec fn rest(&self) -> Seq<u8> {
        self.data().subrange(self.pos() as int, self.data().len() as int)
    }

    #[verifier::type_invariant]
    spec fn wf(&self) -> bool {
        self.offset <= self.data@.len()
    }

    /// A decoder at the start of `data`.
    pub fn new(data: &'a [u8]) -> (r: Self)
        ensures
            r.data() == data@,
            r.pos() == 0,
    {
        Self { data, offset: 0 }
    }

    /// Takes the next `len` bytes, or nothing (leaving the position as it
    /// was) when fewer than `len` remain.
    pub fn read_bytes(&mut self, len: usize) -> (r: Option<&'a [u8]>)
        ensures
            final(self).data() == old(self).data(),
            old(self).pos() + len > old(self).data().len() ==> r is None && final(self).pos() == old(self).pos(),
            old(self).pos() + len <= old(self).data().len() ==> {
                &&& r matches Some(b)
                &&& b@ == old(self).rest().subrange(0, len as int)
                &&& final(self).pos() == old(self).pos() + len
            },
    {
        proof { use_type_invariant(&*self); }
        if len > self.data.len() - self.offset {
            None
        } else {
            let res = &self.data[self.offset..self.offset + len];
            self.offset = self.offset + len;
            Some(res)
        }
    }

    /// Reads four bytes and gives them back when they are the magic bytes.
    /// The four bytes are consumed either way; with fewer than four left,
    /// nothing is consumed.
    pub fn read_magic(&mut self) -> (r: Option<[u8; 4]>)
        ensures
            final(self).data() == old(self).data(),
            old(self).rest().len() < 4 ==> r is None && final(self).pos() == old(self).pos(),
            old(self).rest().len() >= 4 ==> {
                &&& final(self).pos() == old(self).pos() + 4
                &&& (r is Some <==> old(self).rest().subrange(0, 4) == wasm_magic())
                &&& (r matches Some(m) ==> m@ == wasm_magic())
            },
    {
        proof { use_type_invariant(&*self); }
        let bytes = self.read_bytes(4)?;
        if bytes[0] == 0x00 && bytes[1] == 0x61 && bytes[2] == 0x73 && bytes[3] == 0x6d {
            let magic: [u8; 4] = [bytes[0], bytes[1], bytes[2], bytes[3]];
            assert(magic@ =~= wasm_magic());
            assert(bytes@ =~= wasm_magic());
            Some(magic)
        } else {
            assert(bytes@[0] != 0x00 || bytes@[1] != 0x61 || bytes@[2] != 0x73 || bytes@[3] != 0x6d);
            assert(bytes@ != wasm_magic());
            None
        }
    }

    /// Reads an unsigned 32-bit LEB128 number (at most five bytes).
    pub fn read_u32_leb128(&mut self) -> (r: Option<u32>)
        ensures
            final(self).data() == old(self).data(),
            r == read_uleb32(old(self).rest()).0,
            final(self).pos() == old(self).pos() + read_uleb32(old(self).rest()).1,
    {
        proof { use_type_invariant(&*self); }
        let ghost s = self.rest();
        let ghost start = self.pos();
        let mut result: u32 = 0;
        let mut shift: u32 = 0;
        let ghost mut k: nat = 0;
        let ghost mut acc: nat = 0;
        loop
            invariant
                self.data() == old(self).data(),
                s == old(self).rest(),
                start == old(self).pos(),
                k <= 4,
                shift == 7 * k,
                self.pos() == start + k,
                self.pos() <= self.data().len(),
                result == acc,
                acc < pow128(k),
                read_uleb32(s) == read_uleb32_from(s, k, acc),
            decreases 5 - k,
        {
            proof { use_type_invariant(&*self); }
            let bytes = self.read_bytes(1);
            let byte = match bytes {
                Some(b) => b[0],
                None => {
                    assert(self.data().subrange(self.pos() as int, self.data().len() as int) =~= s.subrange(k as int, s.len() as int));
                    return None;
                },
            };
            assert(byte == s[k as int]);
            proof { lemma_accumulate(result, byte, k, shift); }
            let ghost acc2 = acc + (byte % 128) as nat * pow128(k);
            result = result | (((byte & 0x7f) as u32) << shift);
            assert((byte & 0x80 == 0) == (byte < 128)) by (bit_vector);
            if (byte & 0x80) == 0 {
                proof {
                    reveal_with_fuel(pow128, 6);
                    if k < 4 {
                        vstd::arithmetic::div_mod::lemma_small_mod(acc2, 0x1_0000_0000);
                    }
                }
                return Some(result);
            }
            shift = shift + 7;
            if shift >= 35 {
                return None;
            }
            proof {
                reveal_with_fuel(pow128, 5);
                k = k + 1;
                acc = acc2;
            }
        }
    }

    /// Reads a signed 32-bit LEB128 number (at most five bytes).
    pub fn read_i32_leb128(&mut self) -> (r: Option<i32>)
        ensures
            final(self).data() == old(self).data(),
            r == read_sleb32(old(self).rest()).0,
            final(self).pos() == old(self).pos() + read_sleb32(old(self).rest()).1,
    {
        proof { use_type_invariant(&*self); }
        let ghost s = self.rest();
        let ghost start = self.pos();
        let mut result: u32 = 0;
        let mut shift: u32 = 0;
        let mut byte: u8;
        let ghost mut k: nat = 0;
        let ghost mut acc: nat = 0;
        loop
            invariant
                self.data() == old(self).data(),
                s == old(self).rest(),
                start == old(self).pos(),
                k <= 4,
                shift == 7 * k,
                self.pos() == start + k,
                self.pos() <= self.data().len(),
                result == acc,
                acc < pow128(k),
                read_sleb32(s) == read_sleb32_from(s, k, acc),
            decreases 5 - k,
        {
            proof { use_type_invariant(&*self); }
            let bytes = self.read_bytes(1);
            byte = match bytes {
                Some(b) => b[0],
                None => {
                    assert(self.data().subrange(self.pos() as int, self.data().len() as int) =~= s.subrange(k as int, s.len() as int));
                    return None;
                },
            };
            assert(byte == s[k as int]);
            proof { lemma_accumulate(result, byte, k, shift); }
            let ghost acc2 = acc + (byte % 128) as nat * pow128(k);
            result = result | (((byte & 0x7f) as u32) << shift);
            shift = shift + 7;
            assert((byte & 0x80 == 0) == (byte < 128)) by (bit_vector);
            if (byte & 0x80) == 0 {
                assert((byte & 0x40 != 0) == (byte % 128 >= 64)) by (bit_vector);
                proof { reveal_with_fuel(pow128, 6); }
                if shift < 32 && (byte & 0x40) != 0 {
                    proof { lemma_sign_fill(result, k + 1, shift); }
                    result = result | (!0u32 << shift);
                } else {
                    proof {
                        if k < 4 {
                            vstd::arithmetic::div_mod::lemma_small_mod(acc2, 0x1_0000_0000);
                        }
                    }
                }
                proof { lemma_u32_as_i32(result); }
                return Some(#[verifier::truncate] (result as i32));
            }
            if shift >= 35 {
                return None;
            }
            proof {
                reveal_with_fuel(pow128, 5);
                k = k + 1;
                acc = acc2;
            }
        }
    }

    /// Reads a section: its identifier byte, its LEB128 size and that many
    /// bytes of payload.
    pub fn read_section(&mut self) -> (r: Option<WasmSection<'a>>)
        ensures
            final(self).data() == old(self).data(),
            ({
                let s = old(self).rest();
                let (sz, n) = read_uleb32(s.subrange(1, s.len() as int));
                if s.len() == 0 {
                    r is None && final(self).pos() == old(self).pos()
                } else if section_id_of(s[0]) is None {
                    r is None && final(self).pos() == old(self).pos() + 1
                } else if sz is None {
                    r is None && final(self).pos() == old(self).pos() + 1 + n
                } else if 1 + n + sz->0 > s.len() {
                    r is None && final(self).pos() == old(self).pos() + 1 + n
                } else {
                    &&& r matches Some(sec)
                    &&& Some(sec.id) == section_id_of(s[0])
                    &&& sec.size == sz->0
                    &&& sec.data@ == s.subrange(1 + n as int, 1 + n + sz->0)
                    &&& final(self).pos() == old(self).pos() + 1 + n + sz->0
                }
            }),
    {
        proof { use_type_invariant(&*self); }
        let ghost s = self.rest();
        let id_bytes = self.read_bytes(1)?;
        let id_byte = id_bytes[0];
        assert(self.rest() =~= s.subrange(1, s.len() as int));
        let id = SectionId::from_u8(id_byte)?;
        let size = self.read_u32_leb128()?;
        proof { use_type_invariant(&*self); }
        let ghost (sz, n) = read_uleb32(s.subrange(1, s.len() as int));
        assert(self.rest() =~= s.subrange(1 + n as int, s.len() as int));
        let data = self.read_bytes(size as usize)?;
        assert(data@ =~= s.subrange(1 + n as int, 1 + n + size));
        Some(WasmSection { id, size, data })
    }

    /// Reads one export entry.
    fn read_export_entry(&mut self) -> (r: Option<ExportEntry>)
        ensures
            final(self).data() == old(self).data(),
            final(self).pos() == old(self).pos() + read_export_entry(old(self).rest()).1,
            r is Some <==> read_export_entry(old(self).rest()).0 is Some,
            r matches Some(e) ==> entry_view(e) == read_export_entry(old(self).rest()).0->0,
    {
        proof { use_type_invariant(&*self); }
        let ghost t = self.rest();
        let name_len = self.read_u32_leb128()? as usize;
        let ghost n1 = read_uleb32(t).1;
        proof { use_type_invariant(&*self); }
        assert(self.rest() =~= t.subrange(n1 as int, t.len() as int));
        let name_bytes = self.read_bytes(name_len)?;
        assert(name_bytes@ =~= t.subrange(n1 as int, t.len() as int).subrange(0, name_len as int));
        let name_str = str_from_utf8(name_bytes)?;
        let name = name_str.to_owned();
        proof { use_type_invariant(&*self); }
        assert(self.rest() =~= t.subrange(n1 + name_len, t.len() as int));
        let kind_bytes = self.read_bytes(1)?;
        let kind_byte = kind_bytes[0];
        assert(kind_byte == t.subrange(n1 as int, t.len() as int)[name_len as int]);
        let kind = ExportKind::from_u8(kind_byte)?;
        proof { use_type_invariant(&*self); }
        assert(self.rest() =~= t.subrange(n1 as int, t.len() as int).subrange(name_len + 1, t.len() - n1));
        let index = self.read_u32_leb128()?;
        Some(ExportEntry { name, kind, index })
    }

    /// Reads an export section payload: a LEB128 count, then that many
    /// entries, each a LEB128 name length, the UTF-8 name, a kind byte and a
    /// LEB128 index.
    pub fn decode_export_section(&mut self) -> (r: Option<Vec<ExportEntry>>)
        ensures
            final(self).data() == old(self).data(),
            final(self).pos() == old(self).pos() + read_export_section(old(self).rest()).1,
            r is Some <==> read_export_section(old(self).rest()).0 is Some,
            r matches Some(v) ==> v@.map_values(|e: ExportEntry| entry_view(e)) == read_export_section(old(self).rest()).0->0,
    {
        proof { use_type_invariant(&*self); }
        let ghost s = self.rest();
        let count = self.read_u32_leb128()?;
        let ghost n0 = read_uleb32(s).1;
        proof { use_type_invariant(&*self); }
        assert(self.rest() =~= s.subrange(n0 as int, s.len() as int));
        let mut exports: Vec<ExportEntry> = Vec::new();
        let mut i: u32 = 0;
        let ghost all = read_export_entries(s.subrange(n0 as int, s.len() as int), count as nat);
        while i < count
            invariant
                self.data() == old(self).data(),
                s == old(self).rest(),
                read_uleb32(s) == (Some(count), n0),
                all == read_export_entries(s.subrange(n0 as int, s.len() as int), count as nat),
                i <= count,
                old(self).pos() + n0 <= self.pos(),
                ({
                    let done = (self.pos() - old(self).pos() - n0) as nat;
                    let left = read_export_entries(self.rest(), (count - i) as nat);
                    &&& all.1 == done + left.1
                    &&& (left.0 is Some <==> all.0 is Some)
                    &&& (left.0 matches Some(l) ==> all.0->0 == exports@.map_values(|e: ExportEntry| entry_view(e)) + l)
                }),
            decreases count - i,
        {
            proof { use_type_invariant(&*self); }
            let ghost t = self.rest();
            let ghost (e, en) = read_export_entry(t);
            let entry = self.read_export_entry();
            proof { use_type_invariant(&*self); }
            match entry {
                None => {
                    return None;
                },
                Some(entry) => {
                    let ghost old_exports = exports@;
                    exports.push(entry);
                    assert(self.rest() =~= t.subrange(en as int, t.len() as int));
                    assert(exports@.map_values(|x: ExportEntry| entry_view(x)) =~= old_exports.map_values(|x: ExportEntry| entry_view(x)) + seq![e->0]);
                    let ghost l2 = read_export_entries(self.rest(), (count - i - 1) as nat);
                    assert(l2.0 matches Some(l) ==> seq![e->0] + l == (seq![e->0] + l));
                    assert(l2.0 matches Some(l) ==> old_exports.map_values(|x: ExportEntry| entry_view(x)) + (seq![e->0] + l) =~= exports@.map_values(|x: ExportEntry| entry_view(x)) + l);
                },
            }
            i = i + 1;
        }
        assert(exports@.map_values(|e: ExportEntry| entry_view(e)) + seq![] =~= exports@.map_values(|e: ExportEntry| entry_view(e)));
        Some(exports)
    }

    /// Reads one instruction: an opcode byte and, for branches, calls,
    /// local and global accesses and `i32.const`, its LEB128 immediate.
    pub fn decode_next_opcode(&mut self) -> (r: Option<Opcode>)
        ensures
            final(self).data() == old(self).data(),
            r == read_opcode(old(self).rest()).0,
            final(self).pos() == old(self).pos() + read_opcode(old(self).rest()).1,
    {
        proof { use_type_invariant(&*self); }
        let ghost s = self.rest();
        let bytes = self.read_bytes(1)?;
        let byte = bytes[0];
        assert(self.rest() =~= s.subrange(1, s.len() as int));
        let op = match byte {
            0x00 => Opcode::Unreachable,
            0x01 => Opcode::Nop,
            0x02 => Opcode::Block,
            0x03 => Opcode::Loop,
            0x04 => Opcode::If,
            0x05 => Opcode::Else,
            0x0B => Opcode::End,
            0x0C => Opcode::Br(self.read_u32_leb128()?),
            0x0D => Opcode::BrIf(self.read_u32_leb128()?),
            0x0F => Opcode::Return,
            0x10 => Opcode::Call(self.read_u32_leb128()?),
            0x1A => Opcode::Drop,
            0x1B => Opcode::Select,
            0x20 => Opcode::LocalGet(self.read_u32_leb128()?),
            0x21 => Opcode::LocalSet(self.read_u32_leb128()?),
            0x22 => Opcode::LocalTee(self.read_u32_leb128()?),
            0x23 => Opcode::GlobalGet(self.read_u32_leb128()?),
            0x24 => Opcode::GlobalSet(self.read_u32_leb128()?),
            0x41 => Opcode::I32Const(self.read_i32_leb128()?),
            0x6A => Opcode::I32Add,
            0x6B => Opcode::I32Sub,
            0x6C => Opcode::I32Mul,
            0x6D => Opcode::I32DivS,
            0x6E => Opcode::I32DivU,
            other => Opcode::Unknown(other),
        };
        Some(op)
    }

    /// Reads four bytes and gives them back when they are the version bytes.
    /// The four bytes are consumed either way; with fewer than four left,
    /// nothing is consumed.
    pub fn read_version(&mut self) -> (r: Option<[u8; 4]>)
        ensures
            final(self).data() == old(self).data(),
            old(self).rest().len() < 4 ==> r is None && final(self).pos() == old(self).pos(),
            old(self).rest().len() >= 4 ==> {
                &&& final(self).pos() == old(self).pos() + 4
                &&& (r is Some <==> old(self).rest().subrange(0, 4) == wasm_version())
                &&& (r matches Some(m) ==> m@ == wasm_version())
            },
    {
        proof { use_type_invariant(&*self); }
        let bytes = self.read_bytes(4)?;
        if bytes[0] == 0x01 && bytes[1] == 0x00 && bytes[2] == 0x00 && bytes[3] == 0x00 {
            let version: [u8; 4] = [bytes[0], bytes[1], bytes[2], bytes[3]];
            assert(version@ =~= wasm_version());
            assert(bytes@ =~= wasm_version());
            Some(version)
        } else {
            assert(bytes@[0] != 0x01 || bytes@[1] != 0x00 || bytes@[2] != 0x00 || bytes@[3] != 0x00);
            assert(bytes@ != wasm_version());
            None
        }
    }
}

} // verus!
