use vstd::prelude::*;

use crate::bytes::{
    be_u16, be_u32, lemma_be_u32_injective, lemma_span_split, lemma_starts_concat, push_bytes, push_u16, push_u32,
    push_u8, starts_at, ByteReader,
};
use crate::errors::JavaError;

verus! {

/// One `(match, offset)` entry of a `lookupswitch`.
#[derive(Debug, Clone, Copy, PartialEq, Eq, Structural)]
pub struct LookupSwitchPair {
    pub value: u32,
    pub target: u32,
}

/// One JVM instruction. Loads and stores of locals 0 to 3 use their general
/// variant whichever opcode they came from; `wide` forms have variants of
/// their own.
#[derive(Debug, Clone, PartialEq)]
pub enum Instruction {
    AALoad,
    AAStore,
    ALoad(u8),
    ALoadW(u16),
    ANewArray(u16),
    ANull,
    AReturn,
    ArrayLength,
    AStore(u8),
    AStoreW(u16),
    AThrow,
    BALoad,
    BAStore,
    Bipush(u8),
    CALoad,
    CAStore,
    CheckCast(u16),
    D2F,
    D2I,
    D2L,
    DAdd,
    DALoad,
    DAStore,
    DCmpg,
    DCmpl,
    /// `dconst_0`, `dconst_1`: the value pushed, as an integer.
    DConst(u8),
    DDiv,
    DLoad(u8),
    DLoadW(u16),
    DMul,
    DNeg,
    DRem,
    DReturn,
    DStore(u8),
    DStoreW(u16),
    DSub,
    Dup,
    Dup2,
    Dup2X1,
    Dup2X2,
    DupX1,
    DupX2,
    F2D,
    F2I,
    F2L,
    FAdd,
    FALoad,
    FAStore,
    FCmpg,
    FCmpl,
    /// `fconst_0`..`fconst_2`: the value pushed, as an integer.
    FConst(u8),
    FDiv,
    FLoad(u8),
    FLoadW(u16),
    FMul,
    FNeg,
    FRem,
    FReturn,
    FStore(u8),
    FStoreW(u16),
    FSub,
    GetField(u16),
    GetStatic(u16),
    Goto(i16),
    GotoW(u32),
    I2B,
    I2C,
    I2D,
    I2F,
    I2L,
    I2S,
    IAdd,
    IALoad,
    IAnd,
    IAStore,
    /// `iconst_m1`..`iconst_5`: the value pushed.
    IConst(i32),
    IDiv,
    IfAcmpeq(i16),
    IfAcmpne(i16),
    Ifeq(i16),
    Ifge(i16),
    Ifgt(i16),
    IfIcmpeq(i16),
    IfIcmpge(i16),
    IfIcmpgt(i16),
    IfIcmple(i16),
    IfIcmplt(i16),
    IfIcmpne(i16),
    Ifle(i16),
    Iflt(i16),
    Ifne(i16),
    IfNonNull(u16),
    IfNull(u16),
    IInc(u8, i8),
    /// `wide iinc`: local index and the increment as stored.
    IIncW(u16, u16),
    ILoad(u8),
    ILoadW(u16),
    IMul,
    INeg,
    InstanceOf(u16),
    InvokeDynamic(u16),
    /// `invokeinterface`: the method index and the argument count.
    InvokeInterface { index: u16, count: u8 },
    InvokeSpecial(u16),
    InvokeStatic(u16),
    InvokeVirtual(u16),
    IOr,
    IRem,
    IReturn,
    IShl,
    IShr,
    IStore(u8),
    IStoreW(u16),
    ISub,
    IUShr,
    IXor,
    Jsr(i16),
    JsrW(u32),
    L2D,
    L2F,
    L2I,
    LAdd,
    LALoad,
    LAnd,
    LAStore,
    LCmp,
    /// `lconst_0`, `lconst_1`: the value pushed.
    LConst(i64),
    Ldc(u8),
    Ldc2W(u16),
    LdcW(u16),
    LDiv,
    LLoad(u8),
    LLoadW(u16),
    LMul,
    LNeg,
    /// `lookupswitch`; `padding` is the number of zero bytes after the opcode.
    LookupSwitch { padding: u32, default: u32, pairs: Vec<LookupSwitchPair> },
    LOr,
    LRem,
    LReturn,
    LShl,
    LShr,
    LStore(u8),
    LStoreW(u16),
    LSub,
    LUShr,
    LXor,
    MonitorEnter,
    MonitorExit,
    MultiANewArray(u16, u8),
    New(u16),
    NewArray(u8),
    Nop,
    Pop,
    Pop2,
    PutField(u16),
    PutStatic(u16),
    Ret(u8),
    Return,
    RetW(u16),
    SALoad,
    SAStore,
    Sipush(i16),
    Swap,
    /// `tableswitch`; `padding` is the number of zero bytes after the opcode, and `minimum` and `maximum` hold the signed bounds as stored.
    TableSwitch { padding: u32, minimum: u32, maximum: u32, jump_targets: Vec<u32>, default: u32 },
}

/// `n` zero bytes.
pub open spec fn zeros(n: nat) -> Seq<u8> {
    Seq::new(n, |i: int| 0u8)
}

/// The big-endian bytes of each value, in order.
pub open spec fn ser_u32s(s: Seq<u32>) -> Seq<u8>
    decreases s.len(),
{
    if s.len() == 0 {
        Seq::empty()
    } else {
        ser_u32s(s.drop_last()) + be_u32(s.last())
    }
}

/// The bytes of each pair, in order.
pub open spec fn ser_pairs(s: Seq<LookupSwitchPair>) -> Seq<u8>
    decreases s.len(),
{
    if s.len() == 0 {
        Seq::empty()
    } else {
        ser_pairs(s.drop_last()) + be_u32(s.last().value) + be_u32(s.last().target)
    }
}

/// The padding that aligns the operands of a switch whose opcode stands at
/// `pc` to a multiple of four.
pub open spec fn switch_padding(pc: int) -> int {
    (4 - (pc + 1) % 4) % 4
}

/// The number of jump targets that the signed bounds of a `tableswitch` call for.
pub open spec fn table_length(minimum: u32, maximum: u32) -> int {
    (#[verifier::truncate] (maximum as i32)) - (#[verifier::truncate] (minimum as i32)) + 1
}

/// The pushed constant is one that a short opcode stands for.
pub open spec fn const_in_range(i: Instruction) -> bool {
    match i {
        Instruction::IConst(v) => -1 <= v <= 5,
        Instruction::LConst(v) => 0 <= v <= 1,
        Instruction::FConst(v) => 0 <= v <= 2,
        Instruction::DConst(v) => 0 <= v <= 1,
        _ => true,
    }
}

/// The instruction has an encoding: constants in range, a pair count that
/// fits its field.
pub open spec fn encodable(i: Instruction) -> bool {
    &&& const_in_range(i)
    &&& (i matches Instruction::LookupSwitch { pairs, .. } ==> pairs@.len() <= u32::MAX)
}

/// What decoding guarantees of an instruction whose opcode stood at `pc`:
/// it is encodable, a switch carries the padding of its position, and a
/// `tableswitch` has as many targets as its bounds call for.
pub open spec fn decoded_at(i: Instruction, pc: int) -> bool {
    &&& encodable(i)
    &&& match i {
        Instruction::TableSwitch { padding, minimum, maximum, jump_targets, .. } =>
            padding == switch_padding(pc) && jump_targets@.len() == table_length(minimum, maximum),
        Instruction::LookupSwitch { padding, .. } => padding == switch_padding(pc),
        _ => true,
    }
}

/// The opcodes that a `wide` prefix may modify.
pub open spec fn wide_target(op: u8) -> bool {
    op == 0x15 || op == 0x16 || op == 0x17 || op == 0x18 || op == 0x19 || op == 0x36 || op == 0x37
        || op == 0x38 || op == 0x39 || op == 0x3A || op == 0x84 || op == 0xA9
}

/// The bytes of one instruction. Locals 0 to 3 take the short opcodes.
pub open spec fn ser_instr(i: Instruction) -> Seq<u8> {
    match i {
        Instruction::Nop => seq![0x00u8],
        Instruction::ANull => seq![0x01u8],
        Instruction::IALoad => seq![0x2Eu8],
        Instruction::LALoad => seq![0x2Fu8],
        Instruction::FALoad => seq![0x30u8],
        Instruction::DALoad => seq![0x31u8],
        Instruction::AALoad => seq![0x32u8],
        Instruction::BALoad => seq![0x33u8],
        Instruction::CALoad => seq![0x34u8],
        Instruction::SALoad => seq![0x35u8],
        Instruction::IAStore => seq![0x4Fu8],
        Instruction::LAStore => seq![0x50u8],
        Instruction::FAStore => seq![0x51u8],
        Instruction::DAStore => seq![0x52u8],
        Instruction::AAStore => seq![0x53u8],
        Instruction::BAStore => seq![0x54u8],
        Instruction::CAStore => seq![0x55u8],
        Instruction::SAStore => seq![0x56u8],
        Instruction::Pop => seq![0x57u8],
        Instruction::Pop2 => seq![0x58u8],
        Instruction::Dup => seq![0x59u8],
        Instruction::DupX1 => seq![0x5Au8],
        Instruction::DupX2 => seq![0x5Bu8],
        Instruction::Dup2 => seq![0x5Cu8],
        Instruction::Dup2X1 => seq![0x5Du8],
        Instruction::Dup2X2 => seq![0x5Eu8],
        Instruction::Swap => seq![0x5Fu8],
        Instruction::IAdd => seq![0x60u8],
        Instruction::LAdd => seq![0x61u8],
        Instruction::FAdd => seq![0x62u8],
        Instruction::DAdd => seq![0x63u8],
        Instruction::ISub => seq![0x64u8],
        Instruction::LSub => seq![0x65u8],
        Instruction::FSub => seq![0x66u8],
        Instruction::DSub => seq![0x67u8],
        Instruction::IMul => seq![0x68u8],
        Instruction::LMul => seq![0x69u8],
        Instruction::FMul => seq![0x6Au8],
        Instruction::DMul => seq![0x6Bu8],
        Instruction::IDiv => seq![0x6Cu8],
        Instruction::LDiv => seq![0x6Du8],
        Instruction::FDiv => seq![0x6Eu8],
        Instruction::DDiv => seq![0x6Fu8],
        Instruction::IRem => seq![0x70u8],
        Instruction::LRem => seq![0x71u8],
        Instruction::FRem => seq![0x72u8],
        Instruction::DRem => seq![0x73u8],
        Instruction::INeg => seq![0x74u8],
        Instruction::LNeg => seq![0x75u8],
        Instruction::FNeg => seq![0x76u8],
        Instruction::DNeg => seq![0x77u8],
        Instruction::IShl => seq![0x78u8],
        Instruction::LShl => seq![0x79u8],
        Instruction::IShr => seq![0x7Au8],
        Instruction::LShr => seq![0x7Bu8],
        Instruction::IUShr => seq![0x7Cu8],
        Instruction::LUShr => seq![0x7Du8],
        Instruction::IAnd => seq![0x7Eu8],
        Instruction::LAnd => seq![0x7Fu8],
        Instruction::IOr => seq![0x80u8],
        Instruction::LOr => seq![0x81u8],
        Instruction::IXor => seq![0x82u8],
        Instruction::LXor => seq![0x83u8],
        Instruction::I2L => seq![0x85u8],
        Instruction::I2F => seq![0x86u8],
        Instruction::I2D => seq![0x87u8],
        Instruction::L2I => seq![0x88u8],
        Instruction::L2F => seq![0x89u8],
        Instruction::L2D => seq![0x8Au8],
        Instruction::F2I => seq![0x8Bu8],
        Instruction::F2L => seq![0x8Cu8],
        Instruction::F2D => seq![0x8Du8],
        Instruction::D2I => seq![0x8Eu8],
        Instruction::D2L => seq![0x8Fu8],
        Instruction::D2F => seq![0x90u8],
        Instruction::I2B => seq![0x91u8],
        Instruction::I2C => seq![0x92u8],
        Instruction::I2S => seq![0x93u8],
        Instruction::LCmp => seq![0x94u8],
        Instruction::FCmpl => seq![0x95u8],
        Instruction::FCmpg => seq![0x96u8],
        Instruction::DCmpl => seq![0x97u8],
        Instruction::DCmpg => seq![0x98u8],
        Instruction::IReturn => seq![0xACu8],
        Instruction::LReturn => seq![0xADu8],
        Instruction::FReturn => seq![0xAEu8],
        Instruction::DReturn => seq![0xAFu8],
        Instruction::AReturn => seq![0xB0u8],
        Instruction::Return => seq![0xB1u8],
        Instruction::ArrayLength => seq![0xBEu8],
        Instruction::AThrow => seq![0xBFu8],
        Instruction::MonitorEnter => seq![0xC2u8],
        Instruction::MonitorExit => seq![0xC3u8],
        Instruction::Sipush(v) => seq![0x11u8] + be_u16(#[verifier::truncate] (v as u16)),
        Instruction::Ifeq(v) => seq![0x99u8] + be_u16(#[verifier::truncate] (v as u16)),
        Instruction::Ifne(v) => seq![0x9Au8] + be_u16(#[verifier::truncate] (v as u16)),
        Instruction::Iflt(v) => seq![0x9Bu8] + be_u16(#[verifier::truncate] (v as u16)),
        Instruction::Ifge(v) => seq![0x9Cu8] + be_u16(#[verifier::truncate] (v as u16)),
        Instruction::Ifgt(v) => seq![0x9Du8] + be_u16(#[verifier::truncate] (v as u16)),
        Instruction::Ifle(v) => seq![0x9Eu8] + be_u16(#[verifier::truncate] (v as u16)),
        Instruction::IfIcmpeq(v) => seq![0x9Fu8] + be_u16(#[verifier::truncate] (v as u16)),
        Instruction::IfIcmpne(v) => seq![0xA0u8] + be_u16(#[verifier::truncate] (v as u16)),
        Instruction::IfIcmplt(v) => seq![0xA1u8] + be_u16(#[verifier::truncate] (v as u16)),
        Instruction::IfIcmpge(v) => seq![0xA2u8] + be_u16(#[verifier::truncate] (v as u16)),
        Instruction::IfIcmpgt(v) => seq![0xA3u8] + be_u16(#[verifier::truncate] (v as u16)),
        Instruction::IfIcmple(v) => seq![0xA4u8] + be_u16(#[verifier::truncate] (v as u16)),
        Instruction::IfAcmpeq(v) => seq![0xA5u8] + be_u16(#[verifier::truncate] (v as u16)),
        Instruction::IfAcmpne(v) => seq![0xA6u8] + be_u16(#[verifier::truncate] (v as u16)),
        Instruction::Goto(v) => seq![0xA7u8] + be_u16(#[verifier::truncate] (v as u16)),
        Instruction::Jsr(v) => seq![0xA8u8] + be_u16(#[verifier::truncate] (v as u16)),
        Instruction::LdcW(v) => seq![0x13u8] + be_u16(v),
        Instruction::Ldc2W(v) => seq![0x14u8] + be_u16(v),
        Instruction::GetStatic(v) => seq![0xB2u8] + be_u16(v),
        Instruction::PutStatic(v) => seq![0xB3u8] + be_u16(v),
        Instruction::GetField(v) => seq![0xB4u8] + be_u16(v),
        Instruction::PutField(v) => seq![0xB5u8] + be_u16(v),
        Instruction::InvokeVirtual(v) => seq![0xB6u8] + be_u16(v),
        Instruction::InvokeSpecial(v) => seq![0xB7u8] + be_u16(v),
        Instruction::InvokeStatic(v) => seq![0xB8u8] + be_u16(v),
        Instruction::New(v) => seq![0xBBu8] + be_u16(v),
        Instruction::ANewArray(v) => seq![0xBDu8] + be_u16(v),
        Instruction::CheckCast(v) => seq![0xC0u8] + be_u16(v),
        Instruction::InstanceOf(v) => seq![0xC1u8] + be_u16(v),
        Instruction::IfNull(v) => seq![0xC6u8] + be_u16(v),
        Instruction::IfNonNull(v) => seq![0xC7u8] + be_u16(v),
        Instruction::Bipush(v) => seq![0x10u8, v],
        Instruction::Ldc(v) => seq![0x12u8, v],
        Instruction::NewArray(v) => seq![0xBCu8, v],
        Instruction::Ret(v) => seq![0xA9u8, v],
        Instruction::GotoW(v) => seq![0xC8u8] + be_u32(v),
        Instruction::JsrW(v) => seq![0xC9u8] + be_u32(v),
        Instruction::ILoad(v) => if v < 4 { seq![(0x1A + v) as u8] } else { seq![0x15u8, v] },
        Instruction::LLoad(v) => if v < 4 { seq![(0x1E + v) as u8] } else { seq![0x16u8, v] },
        Instruction::FLoad(v) => if v < 4 { seq![(0x22 + v) as u8] } else { seq![0x17u8, v] },
        Instruction::DLoad(v) => if v < 4 { seq![(0x26 + v) as u8] } else { seq![0x18u8, v] },
        Instruction::ALoad(v) => if v < 4 { seq![(0x2A + v) as u8] } else { seq![0x19u8, v] },
        Instruction::IStore(v) => if v < 4 { seq![(0x3B + v) as u8] } else { seq![0x36u8, v] },
        Instruction::LStore(v) => if v < 4 { seq![(0x3F + v) as u8] } else { seq![0x37u8, v] },
        Instruction::FStore(v) => if v < 4 { seq![(0x43 + v) as u8] } else { seq![0x38u8, v] },
        Instruction::DStore(v) => if v < 4 { seq![(0x47 + v) as u8] } else { seq![0x39u8, v] },
        Instruction::AStore(v) => if v < 4 { seq![(0x4B + v) as u8] } else { seq![0x3Au8, v] },
        Instruction::ILoadW(v) => seq![0xC4u8, 0x15u8] + be_u16(v),
        Instruction::LLoadW(v) => seq![0xC4u8, 0x16u8] + be_u16(v),
        Instruction::FLoadW(v) => seq![0xC4u8, 0x17u8] + be_u16(v),
        Instruction::DLoadW(v) => seq![0xC4u8, 0x18u8] + be_u16(v),
        Instruction::ALoadW(v) => seq![0xC4u8, 0x19u8] + be_u16(v),
        Instruction::IStoreW(v) => seq![0xC4u8, 0x36u8] + be_u16(v),
        Instruction::LStoreW(v) => seq![0xC4u8, 0x37u8] + be_u16(v),
        Instruction::FStoreW(v) => seq![0xC4u8, 0x38u8] + be_u16(v),
        Instruction::DStoreW(v) => seq![0xC4u8, 0x39u8] + be_u16(v),
        Instruction::AStoreW(v) => seq![0xC4u8, 0x3Au8] + be_u16(v),
        Instruction::RetW(v) => seq![0xC4u8, 0xA9u8] + be_u16(v),
        Instruction::IConst(v) => seq![(v + 0x03) as u8],
        Instruction::LConst(v) => seq![(v + 0x09) as u8],
        Instruction::FConst(v) => seq![(v + 0x0B) as u8],
        Instruction::DConst(v) => seq![(v + 0x0E) as u8],
        Instruction::IInc(a, b) => seq![0x84u8, a, #[verifier::truncate] (b as u8)],
        Instruction::IIncW(a, b) => seq![0xC4u8, 0x84u8] + be_u16(a) + be_u16(b),
        Instruction::InvokeInterface { index, count } => seq![0xB9u8] + be_u16(index) + seq![count, 0u8],
        Instruction::InvokeDynamic(v) => seq![0xBAu8] + be_u16(v) + seq![0u8, 0u8],
        Instruction::MultiANewArray(a, b) => seq![0xC5u8] + be_u16(a) + seq![b],
        Instruction::TableSwitch { padding, minimum, maximum, jump_targets, default } =>
            seq![0xAAu8] + zeros(padding as nat) + be_u32(default) + be_u32(minimum) + be_u32(maximum)
                + ser_u32s(jump_targets@),
        Instruction::LookupSwitch { padding, default, pairs } =>
            seq![0xABu8] + zeros(padding as nat) + be_u32(default) + be_u32(pairs@.len() as u32)
                + ser_pairs(pairs@),
    }
}

/// The first byte of an instruction's encoding.
pub open spec fn opcode_of(i: Instruction) -> u8 {
    match i {
        Instruction::Nop => 0x00,
        Instruction::ANull => 0x01,
        Instruction::IALoad => 0x2E,
        Instruction::LALoad => 0x2F,
        Instruction::FALoad => 0x30,
        Instruction::DALoad => 0x31,
        Instruction::AALoad => 0x32,
        Instruction::BALoad => 0x33,
        Instruction::CALoad => 0x34,
        Instruction::SALoad => 0x35,
        Instruction::IAStore => 0x4F,
        Instruction::LAStore => 0x50,
        Instruction::FAStore => 0x51,
        Instruction::DAStore => 0x52,
        Instruction::AAStore => 0x53,
        Instruction::BAStore => 0x54,
        Instruction::CAStore => 0x55,
        Instruction::SAStore => 0x56,
        Instruction::Pop => 0x57,
        Instruction::Pop2 => 0x58,
        Instruction::Dup => 0x59,
        Instruction::DupX1 => 0x5A,
        Instruction::DupX2 => 0x5B,
        Instruction::Dup2 => 0x5C,
        Instruction::Dup2X1 => 0x5D,
        Instruction::Dup2X2 => 0x5E,
        Instruction::Swap => 0x5F,
        Instruction::IAdd => 0x60,
        Instruction::LAdd => 0x61,
        Instruction::FAdd => 0x62,
        Instruction::DAdd => 0x63,
        Instruction::ISub => 0x64,
        Instruction::LSub => 0x65,
        Instruction::FSub => 0x66,
        Instruction::DSub => 0x67,
        Instruction::IMul => 0x68,
        Instruction::LMul => 0x69,
        Instruction::FMul => 0x6A,
        Instruction::DMul => 0x6B,
        Instruction::IDiv => 0x6C,
        Instruction::LDiv => 0x6D,
        Instruction::FDiv => 0x6E,
        Instruction::DDiv => 0x6F,
        Instruction::IRem => 0x70,
        Instruction::LRem => 0x71,
        Instruction::FRem => 0x72,
        Instruction::DRem => 0x73,
        Instruction::INeg => 0x74,
        Instruction::LNeg => 0x75,
        Instruction::FNeg => 0x76,
        Instruction::DNeg => 0x77,
        Instruction::IShl => 0x78,
        Instruction::LShl => 0x79,
        Instruction::IShr => 0x7A,
        Instruction::LShr => 0x7B,
        Instruction::IUShr => 0x7C,
        Instruction::LUShr => 0x7D,
        Instruction::IAnd => 0x7E,
        Instruction::LAnd => 0x7F,
        Instruction::IOr => 0x80,
        Instruction::LOr => 0x81,
        Instruction::IXor => 0x82,
        Instruction::LXor => 0x83,
        Instruction::I2L => 0x85,
        Instruction::I2F => 0x86,
        Instruction::I2D => 0x87,
        Instruction::L2I => 0x88,
        Instruction::L2F => 0x89,
        Instruction::L2D => 0x8A,
        Instruction::F2I => 0x8B,
        Instruction::F2L => 0x8C,
        Instruction::F2D => 0x8D,
        Instruction::D2I => 0x8E,
        Instruction::D2L => 0x8F,
        Instruction::D2F => 0x90,
        Instruction::I2B => 0x91,
        Instruction::I2C => 0x92,
        Instruction::I2S => 0x93,
        Instruction::LCmp => 0x94,
        Instruction::FCmpl => 0x95,
        Instruction::FCmpg => 0x96,
        Instruction::DCmpl => 0x97,
        Instruction::DCmpg => 0x98,
        Instruction::IReturn => 0xAC,
        Instruction::LReturn => 0xAD,
        Instruction::FReturn => 0xAE,
        Instruction::DReturn => 0xAF,
        Instruction::AReturn => 0xB0,
        Instruction::Return => 0xB1,
        Instruction::ArrayLength => 0xBE,
        Instruction::AThrow => 0xBF,
        Instruction::MonitorEnter => 0xC2,
        Instruction::MonitorExit => 0xC3,
        Instruction::Sipush(..) => 0x11,
        Instruction::Ifeq(..) => 0x99,
        Instruction::Ifne(..) => 0x9A,
        Instruction::Iflt(..) => 0x9B,
        Instruction::Ifge(..) => 0x9C,
        Instruction::Ifgt(..) => 0x9D,
        Instruction::Ifle(..) => 0x9E,
        Instruction::IfIcmpeq(..) => 0x9F,
        Instruction::IfIcmpne(..) => 0xA0,
        Instruction::IfIcmplt(..) => 0xA1,
        Instruction::IfIcmpge(..) => 0xA2,
        Instruction::IfIcmpgt(..) => 0xA3,
        Instruction::IfIcmple(..) => 0xA4,
        Instruction::IfAcmpeq(..) => 0xA5,
        Instruction::IfAcmpne(..) => 0xA6,
        Instruction::Goto(..) => 0xA7,
        Instruction::Jsr(..) => 0xA8,
        Instruction::LdcW(..) => 0x13,
        Instruction::Ldc2W(..) => 0x14,
        Instruction::GetStatic(..) => 0xB2,
        Instruction::PutStatic(..) => 0xB3,
        Instruction::GetField(..) => 0xB4,
        Instruction::PutField(..) => 0xB5,
        Instruction::InvokeVirtual(..) => 0xB6,
        Instruction::InvokeSpecial(..) => 0xB7,
        Instruction::InvokeStatic(..) => 0xB8,
        Instruction::New(..) => 0xBB,
        Instruction::ANewArray(..) => 0xBD,
        Instruction::CheckCast(..) => 0xC0,
        Instruction::InstanceOf(..) => 0xC1,
        Instruction::IfNull(..) => 0xC6,
        Instruction::IfNonNull(..) => 0xC7,
        Instruction::Bipush(..) => 0x10,
        Instruction::Ldc(..) => 0x12,
        Instruction::NewArray(..) => 0xBC,
        Instruction::Ret(..) => 0xA9,
        Instruction::GotoW(..) => 0xC8,
        Instruction::JsrW(..) => 0xC9,
        Instruction::ILoad(v) => if v < 4 { (0x1A + v) as u8 } else { 0x15 },
        Instruction::LLoad(v) => if v < 4 { (0x1E + v) as u8 } else { 0x16 },
        Instruction::FLoad(v) => if v < 4 { (0x22 + v) as u8 } else { 0x17 },
        Instruction::DLoad(v) => if v < 4 { (0x26 + v) as u8 } else { 0x18 },
        Instruction::ALoad(v) => if v < 4 { (0x2A + v) as u8 } else { 0x19 },
        Instruction::IStore(v) => if v < 4 { (0x3B + v) as u8 } else { 0x36 },
        Instruction::LStore(v) => if v < 4 { (0x3F + v) as u8 } else { 0x37 },
        Instruction::FStore(v) => if v < 4 { (0x43 + v) as u8 } else { 0x38 },
        Instruction::DStore(v) => if v < 4 { (0x47 + v) as u8 } else { 0x39 },
        Instruction::AStore(v) => if v < 4 { (0x4B + v) as u8 } else { 0x3A },
        Instruction::ILoadW(..) => 0xC4,
        Instruction::LLoadW(..) => 0xC4,
        Instruction::FLoadW(..) => 0xC4,
        Instruction::DLoadW(..) => 0xC4,
        Instruction::ALoadW(..) => 0xC4,
        Instruction::IStoreW(..) => 0xC4,
        Instruction::LStoreW(..) => 0xC4,
        Instruction::FStoreW(..) => 0xC4,
        Instruction::DStoreW(..) => 0xC4,
        Instruction::AStoreW(..) => 0xC4,
        Instruction::RetW(..) => 0xC4,
        Instruction::IConst(v) => (v + 0x03) as u8,
        Instruction::LConst(v) => (v + 0x09) as u8,
        Instruction::FConst(v) => (v + 0x0B) as u8,
        Instruction::DConst(v) => (v + 0x0E) as u8,
        Instruction::IInc(..) => 0x84,
        Instruction::IIncW(..) => 0xC4,
        Instruction::InvokeInterface { .. } => 0xB9,
        Instruction::InvokeDynamic(..) => 0xBA,
        Instruction::MultiANewArray(..) => 0xC5,
        Instruction::TableSwitch { .. } => 0xAA,
        Instruction::LookupSwitch { .. } => 0xAB,
    }
}

/// The general form of a load or store of a local: opcode, then the index.
pub open spec fn long_form(i: Instruction) -> Seq<u8> {
    match i {
        Instruction::ILoad(v) => seq![0x15u8, v],
        Instruction::LLoad(v) => seq![0x16u8, v],
        Instruction::FLoad(v) => seq![0x17u8, v],
        Instruction::DLoad(v) => seq![0x18u8, v],
        Instruction::ALoad(v) => seq![0x19u8, v],
        Instruction::IStore(v) => seq![0x36u8, v],
        Instruction::LStore(v) => seq![0x37u8, v],
        Instruction::FStore(v) => seq![0x38u8, v],
        Instruction::DStore(v) => seq![0x39u8, v],
        Instruction::AStore(v) => seq![0x3Au8, v],
        _ => Seq::empty(),
    }
}

/// `s` is a byte string that decoding reads as `i`: its encoding, the
/// general form of a load or store of a local, or a switch whose padding
/// bytes may be anything.
#[verifier::opaque]
pub open spec fn reads_as(i: Instruction, s: Seq<u8>) -> bool {
    ||| s == ser_instr(i)
    ||| (long_form(i).len() > 0 && s == long_form(i))
    ||| match i {
        Instruction::TableSwitch { padding, .. } => s.len() == ser_instr(i).len() && s.len() >= 1 + padding && s[0]
            == ser_instr(i)[0] && s.subrange(1 + padding, s.len() as int) == ser_instr(i).subrange(
            1 + padding,
            s.len() as int,
        ),
        Instruction::LookupSwitch { padding, .. } => s.len() == ser_instr(i).len() && s.len() >= 1 + padding && s[0]
            == ser_instr(i)[0] && s.subrange(1 + padding, s.len() as int) == ser_instr(i).subrange(
            1 + padding,
            s.len() as int,
        ),
        _ => false,
    }
}

/// What decoding needs of an instruction at `pc` to give it back: what it
/// guarantees, and at least one jump target in a `tableswitch`.
pub open spec fn decodable_at(i: Instruction, pc: int) -> bool {
    &&& decoded_at(i, pc)
    &&& (i matches Instruction::TableSwitch { jump_targets, .. } ==> jump_targets@.len() >= 1)
}

proof fn lemma_instr_first(i: Instruction)
    requires
        encodable(i),
    ensures
        ser_instr(i).len() >= 1,
        ser_instr(i)[0] == opcode_of(i),
{
}

/// The bytes of a sequence of instructions.
pub open spec fn ser_code(code: Seq<Instruction>) -> Seq<u8>
    decreases code.len(),
{
    if code.len() == 0 {
        Seq::empty()
    } else {
        ser_code(code.drop_last()) + ser_instr(code.last())
    }
}

/// The offset of instruction `k` within the encoded code.
pub open spec fn pc_of(code: Seq<Instruction>, k: int) -> int {
    ser_code(code.take(k)).len() as int
}

/// The bytes of a code array: its length as a `u32`, then the instructions.
pub open spec fn ser_code_block(code: Seq<Instruction>) -> Seq<u8> {
    be_u32(ser_code(code).len() as u32) + ser_code(code)
}

proof fn lemma_ser_u32s_len(s: Seq<u32>)
    ensures
        ser_u32s(s).len() == 4 * s.len(),
    decreases s.len(),
{
    if s.len() > 0 {
        lemma_ser_u32s_len(s.drop_last());
    }
}

proof fn lemma_ser_pairs_len(s: Seq<LookupSwitchPair>)
    ensures
        ser_pairs(s).len() == 8 * s.len(),
    decreases s.len(),
{
    if s.len() > 0 {
        lemma_ser_pairs_len(s.drop_last());
    }
}

proof fn lemma_ser_code_push(code: Seq<Instruction>, i: Instruction)
    ensures
        ser_code(code.push(i)) == ser_code(code) + ser_instr(i),
{
    assert(code.push(i).drop_last() =~= code);
}

proof fn lemma_u16_i16(v: u16)
    ensures
        #[verifier::truncate] ((#[verifier::truncate] (v as i16)) as u16) == v,
{
    assert(#[verifier::truncate] ((#[verifier::truncate] (v as i16)) as u16) == v) by (bit_vector);
}

proof fn lemma_u8_i8(v: u8)
    ensures
        #[verifier::truncate] ((#[verifier::truncate] (v as i8)) as u8) == v,
{
    assert(#[verifier::truncate] ((#[verifier::truncate] (v as i8)) as u8) == v) by (bit_vector);
}

/// Two concatenations with first parts of one length agree only where both
/// parts agree.
proof fn lemma_concat_eq(a: Seq<u8>, b: Seq<u8>, c: Seq<u8>, d: Seq<u8>)
    requires
        a.len() == c.len(),
    ensures
        (a + b == c + d) <==> (a == c && b == d),
{
    if a + b == c + d {
        assert(a =~= (a + b).subrange(0, a.len() as int));
        assert(c =~= (c + d).subrange(0, c.len() as int));
        assert(b =~= (a + b).subrange(a.len() as int, (a + b).len() as int));
        assert(d =~= (c + d).subrange(c.len() as int, (c + d).len() as int));
    }
}

impl Instruction {
    /// The number of bytes the instruction takes in the code array, prefix
    /// and padding included.
    pub fn size(&self) -> (r: u32)
        requires
            ser_instr(*self).len() <= u32::MAX,
        ensures
            r as int == ser_instr(*self).len(),
    {
        match self {
        Instruction::Nop
        | Instruction::ANull
        | Instruction::IALoad
        | Instruction::LALoad
        | Instruction::FALoad
        | Instruction::DALoad
        | Instruction::AALoad
        | Instruction::BALoad
        | Instruction::CALoad
        | Instruction::SALoad
        | Instruction::IAStore
        | Instruction::LAStore
        | Instruction::FAStore
        | Instruction::DAStore
        | Instruction::AAStore
        | Instruction::BAStore
        | Instruction::CAStore
        | Instruction::SAStore
        | Instruction::Pop
        | Instruction::Pop2
        | Instruction::Dup
        | Instruction::DupX1
        | Instruction::DupX2
        | Instruction::Dup2
        | Instruction::Dup2X1
        | Instruction::Dup2X2
        | Instruction::Swap
        | Instruction::IAdd
        | Instruction::LAdd
        | Instruction::FAdd
        | Instruction::DAdd
        | Instruction::ISub
        | Instruction::LSub
        | Instruction::FSub
        | Instruction::DSub
        | Instruction::IMul
        | Instruction::LMul
        | Instruction::FMul
        | Instruction::DMul
        | Instruction::IDiv
        | Instruction::LDiv
        | Instruction::FDiv
        | Instruction::DDiv
        | Instruction::IRem
        | Instruction::LRem
        | Instruction::FRem
        | Instruction::DRem
        | Instruction::INeg
        | Instruction::LNeg
        | Instruction::FNeg
        | Instruction::DNeg
        | Instruction::IShl
        | Instruction::LShl
        | Instruction::IShr
        | Instruction::LShr
        | Instruction::IUShr
        | Instruction::LUShr
        | Instruction::IAnd
        | Instruction::LAnd
        | Instruction::IOr
        | Instruction::LOr
        | Instruction::IXor
        | Instruction::LXor
        | Instruction::I2L
        | Instruction::I2F
        | Instruction::I2D
        | Instruction::L2I
        | Instruction::L2F
        | Instruction::L2D
        | Instruction::F2I
        | Instruction::F2L
        | Instruction::F2D
        | Instruction::D2I
        | Instruction::D2L
        | Instruction::D2F
        | Instruction::I2B
        | Instruction::I2C
        | Instruction::I2S
        | Instruction::LCmp
        | Instruction::FCmpl
        | Instruction::FCmpg
        | Instruction::DCmpl
        | Instruction::DCmpg
        | Instruction::IReturn
        | Instruction::LReturn
        | Instruction::FReturn
        | Instruction::DReturn
        | Instruction::AReturn
        | Instruction::Return
        | Instruction::ArrayLength
        | Instruction::AThrow
        | Instruction::MonitorEnter
        | Instruction::MonitorExit
        | Instruction::IConst(..)
        | Instruction::LConst(..)
        | Instruction::FConst(..)
        | Instruction::DConst(..) => 1,
        Instruction::ILoad(v)
        | Instruction::LLoad(v)
        | Instruction::FLoad(v)
        | Instruction::DLoad(v)
        | Instruction::ALoad(v)
        | Instruction::IStore(v)
        | Instruction::LStore(v)
        | Instruction::FStore(v)
        | Instruction::DStore(v)
        | Instruction::AStore(v) => if *v < 4 {
            1
        } else {
            2
        },
        Instruction::Bipush(..)
        | Instruction::Ldc(..)
        | Instruction::NewArray(..)
        | Instruction::Ret(..) => 2,
        Instruction::Sipush(..)
        | Instruction::Ifeq(..)
        | Instruction::Ifne(..)
        | Instruction::Iflt(..)
        | Instruction::Ifge(..)
        | Instruction::Ifgt(..)
        | Instruction::Ifle(..)
        | Instruction::IfIcmpeq(..)
        | Instruction::IfIcmpne(..)
        | Instruction::IfIcmplt(..)
        | Instruction::IfIcmpge(..)
        | Instruction::IfIcmpgt(..)
        | Instruction::IfIcmple(..)
        | Instruction::IfAcmpeq(..)
        | Instruction::IfAcmpne(..)
        | Instruction::Goto(..)
        | Instruction::Jsr(..)
        | Instruction::LdcW(..)
        | Instruction::Ldc2W(..)
        | Instruction::GetStatic(..)
        | Instruction::PutStatic(..)
        | Instruction::GetField(..)
        | Instruction::PutField(..)
        | Instruction::InvokeVirtual(..)
        | Instruction::InvokeSpecial(..)
        | Instruction::InvokeStatic(..)
        | Instruction::New(..)
        | Instruction::ANewArray(..)
        | Instruction::CheckCast(..)
        | Instruction::InstanceOf(..)
        | Instruction::IfNull(..)
        | Instruction::IfNonNull(..)
        | Instruction::IInc(..) => 3,
        Instruction::ILoadW(..)
        | Instruction::LLoadW(..)
        | Instruction::FLoadW(..)
        | Instruction::DLoadW(..)
        | Instruction::ALoadW(..)
        | Instruction::IStoreW(..)
        | Instruction::LStoreW(..)
        | Instruction::FStoreW(..)
        | Instruction::DStoreW(..)
        | Instruction::AStoreW(..)
        | Instruction::RetW(..)
        | Instruction::MultiANewArray(..) => 4,
        Instruction::GotoW(..)
        | Instruction::JsrW(..)
        | Instruction::InvokeDynamic(..)
        | Instruction::InvokeInterface { .. } => 5,
        Instruction::IIncW(..) => 6,
        Instruction::TableSwitch { padding, jump_targets, .. } => {
            proof { lemma_ser_u32s_len(jump_targets@); }
            (13 + *padding as u64 + 4 * jump_targets.len() as u64) as u32
        },
        Instruction::LookupSwitch { padding, pairs, .. } => {
            proof { lemma_ser_pairs_len(pairs@); }
            (9 + *padding as u64 + 8 * pairs.len() as u64) as u32
        },
        }
    }
}

/// Tells whether the instruction has an encoding.
pub fn is_encodable(i: &Instruction) -> (r: bool)
    ensures
        r == encodable(*i),
{
    let in_range = match i {
        Instruction::IConst(v) => -1 <= *v && *v <= 5,
        Instruction::LConst(v) => 0 <= *v && *v <= 1,
        Instruction::FConst(v) => 0 <= *v && *v <= 2,
        Instruction::DConst(v) => 0 <= *v && *v <= 1,
        _ => true,
    };
    match i {
        Instruction::LookupSwitch { pairs, .. } => in_range && pairs.len() <= 0xFFFF_FFFF,
        _ => in_range,
    }
}

/// Appends `n` zero bytes.
fn push_zeros(out: &mut Vec<u8>, n: u32)
    ensures
        final(out)@ == old(out)@ + zeros(n as nat),
{
    let mut k: u32 = 0;
    while k < n
        invariant
            k <= n,
            out@ == old(out)@ + zeros(k as nat),
        decreases n - k,
    {
        out.push(0);
        assert(zeros((k + 1) as nat) =~= zeros(k as nat).push(0u8));
        k = k + 1;
    }
}

/// Appends each value as a big-endian `u32`.
fn write_u32s(out: &mut Vec<u8>, values: &Vec<u32>)
    ensures
        final(out)@ == old(out)@ + ser_u32s(values@),
{
    let mut i: usize = 0;
    while i < values.len()
        invariant
            i <= values@.len(),
            out@ == old(out)@ + ser_u32s(values@.take(i as int)),
        decreases values@.len() - i,
    {
        push_u32(out, values[i]);
        assert(values@.take(i + 1).drop_last() =~= values@.take(i as int));
        i = i + 1;
    }
    assert(values@.take(values@.len() as int) =~= values@);
}

/// Appends each pair, match value then offset.
fn write_pairs(out: &mut Vec<u8>, pairs: &Vec<LookupSwitchPair>)
    ensures
        final(out)@ == old(out)@ + ser_pairs(pairs@),
{
    let mut i: usize = 0;
    while i < pairs.len()
        invariant
            i <= pairs@.len(),
            out@ == old(out)@ + ser_pairs(pairs@.take(i as int)),
        decreases pairs@.len() - i,
    {
        push_u32(out, pairs[i].value);
        push_u32(out, pairs[i].target);
        assert(pairs@.take(i + 1).drop_last() =~= pairs@.take(i as int));
        i = i + 1;
    }
    assert(pairs@.take(pairs@.len() as int) =~= pairs@);
}

/// Writes one instruction.
#[verifier::rlimit(60)]
pub fn write_instruction(out: &mut Vec<u8>, i: &Instruction)
    requires
        encodable(*i),
    ensures
        final(out)@ == old(out)@ + ser_instr(*i),
{
    let ghost start = out@;
    match i {
        Instruction::Nop => push_u8(out, 0x00),
        Instruction::ANull => push_u8(out, 0x01),
        Instruction::IALoad => push_u8(out, 0x2E),
        Instruction::LALoad => push_u8(out, 0x2F),
        Instruction::FALoad => push_u8(out, 0x30),
        Instruction::DALoad => push_u8(out, 0x31),
        Instruction::AALoad => push_u8(out, 0x32),
        Instruction::BALoad => push_u8(out, 0x33),
        Instruction::CALoad => push_u8(out, 0x34),
        Instruction::SALoad => push_u8(out, 0x35),
        Instruction::IAStore => push_u8(out, 0x4F),
        Instruction::LAStore => push_u8(out, 0x50),
        Instruction::FAStore => push_u8(out, 0x51),
        Instruction::DAStore => push_u8(out, 0x52),
        Instruction::AAStore => push_u8(out, 0x53),
        Instruction::BAStore => push_u8(out, 0x54),
        Instruction::CAStore => push_u8(out, 0x55),
        Instruction::SAStore => push_u8(out, 0x56),
        Instruction::Pop => push_u8(out, 0x57),
        Instruction::Pop2 => push_u8(out, 0x58),
        Instruction::Dup => push_u8(out, 0x59),
        Instruction::DupX1 => push_u8(out, 0x5A),
        Instruction::DupX2 => push_u8(out, 0x5B),
        Instruction::Dup2 => push_u8(out, 0x5C),
        Instruction::Dup2X1 => push_u8(out, 0x5D),
        Instruction::Dup2X2 => push_u8(out, 0x5E),
        Instruction::Swap => push_u8(out, 0x5F),
        Instruction::IAdd => push_u8(out, 0x60),
        Instruction::LAdd => push_u8(out, 0x61),
        Instruction::FAdd => push_u8(out, 0x62),
        Instruction::DAdd => push_u8(out, 0x63),
        Instruction::ISub => push_u8(out, 0x64),
        Instruction::LSub => push_u8(out, 0x65),
        Instruction::FSub => push_u8(out, 0x66),
        Instruction::DSub => push_u8(out, 0x67),
        Instruction::IMul => push_u8(out, 0x68),
        Instruction::LMul => push_u8(out, 0x69),
        Instruction::FMul => push_u8(out, 0x6A),
        Instruction::DMul => push_u8(out, 0x6B),
        Instruction::IDiv => push_u8(out, 0x6C),
        Instruction::LDiv => push_u8(out, 0x6D),
        Instruction::FDiv => push_u8(out, 0x6E),
        Instruction::DDiv => push_u8(out, 0x6F),
        Instruction::IRem => push_u8(out, 0x70),
        Instruction::LRem => push_u8(out, 0x71),
        Instruction::FRem => push_u8(out, 0x72),
        Instruction::DRem => push_u8(out, 0x73),
        Instruction::INeg => push_u8(out, 0x74),
        Instruction::LNeg => push_u8(out, 0x75),
        Instruction::FNeg => push_u8(out, 0x76),
        Instruction::DNeg => push_u8(out, 0x77),
        Instruction::IShl => push_u8(out, 0x78),
        Instruction::LShl => push_u8(out, 0x79),
        Instruction::IShr => push_u8(out, 0x7A),
        Instruction::LShr => push_u8(out, 0x7B),
        Instruction::IUShr => push_u8(out, 0x7C),
        Instruction::LUShr => push_u8(out, 0x7D),
        Instruction::IAnd => push_u8(out, 0x7E),
        Instruction::LAnd => push_u8(out, 0x7F),
        Instruction::IOr => push_u8(out, 0x80),
        Instruction::LOr => push_u8(out, 0x81),
        Instruction::IXor => push_u8(out, 0x82),
        Instruction::LXor => push_u8(out, 0x83),
        Instruction::I2L => push_u8(out, 0x85),
        Instruction::I2F => push_u8(out, 0x86),
        Instruction::I2D => push_u8(out, 0x87),
        Instruction::L2I => push_u8(out, 0x88),
        Instruction::L2F => push_u8(out, 0x89),
        Instruction::L2D => push_u8(out, 0x8A),
        Instruction::F2I => push_u8(out, 0x8B),
        Instruction::F2L => push_u8(out, 0x8C),
        Instruction::F2D => push_u8(out, 0x8D),
        Instruction::D2I => push_u8(out, 0x8E),
        Instruction::D2L => push_u8(out, 0x8F),
        Instruction::D2F => push_u8(out, 0x90),
        Instruction::I2B => push_u8(out, 0x91),
        Instruction::I2C => push_u8(out, 0x92),
        Instruction::I2S => push_u8(out, 0x93),
        Instruction::LCmp => push_u8(out, 0x94),
        Instruction::FCmpl => push_u8(out, 0x95),
        Instruction::FCmpg => push_u8(out, 0x96),
        Instruction::DCmpl => push_u8(out, 0x97),
        Instruction::DCmpg => push_u8(out, 0x98),
        Instruction::IReturn => push_u8(out, 0xAC),
        Instruction::LReturn => push_u8(out, 0xAD),
        Instruction::FReturn => push_u8(out, 0xAE),
        Instruction::DReturn => push_u8(out, 0xAF),
        Instruction::AReturn => push_u8(out, 0xB0),
        Instruction::Return => push_u8(out, 0xB1),
        Instruction::ArrayLength => push_u8(out, 0xBE),
        Instruction::AThrow => push_u8(out, 0xBF),
        Instruction::MonitorEnter => push_u8(out, 0xC2),
        Instruction::MonitorExit => push_u8(out, 0xC3),
        Instruction::Sipush(v) => {
            push_u8(out, 0x11);
            push_u16(out, #[verifier::truncate] (*v as u16));
        },
        Instruction::Ifeq(v) => {
            push_u8(out, 0x99);
            push_u16(out, #[verifier::truncate] (*v as u16));
        },
        Instruction::Ifne(v) => {
            push_u8(out, 0x9A);
            push_u16(out, #[verifier::truncate] (*v as u16));
        },
        Instruction::Iflt(v) => {
            push_u8(out, 0x9B);
            push_u16(out, #[verifier::truncate] (*v as u16));
        },
        Instruction::Ifge(v) => {
            push_u8(out, 0x9C);
            push_u16(out, #[verifier::truncate] (*v as u16));
        },
        Instruction::Ifgt(v) => {
            push_u8(out, 0x9D);
            push_u16(out, #[verifier::truncate] (*v as u16));
        },
        Instruction::Ifle(v) => {
            push_u8(out, 0x9E);
            push_u16(out, #[verifier::truncate] (*v as u16));
        },
        Instruction::IfIcmpeq(v) => {
            push_u8(out, 0x9F);
            push_u16(out, #[verifier::truncate] (*v as u16));
        },
        Instruction::IfIcmpne(v) => {
            push_u8(out, 0xA0);
            push_u16(out, #[verifier::truncate] (*v as u16));
        },
        Instruction::IfIcmplt(v) => {
            push_u8(out, 0xA1);
            push_u16(out, #[verifier::truncate] (*v as u16));
        },
        Instruction::IfIcmpge(v) => {
            push_u8(out, 0xA2);
            push_u16(out, #[verifier::truncate] (*v as u16));
        },
        Instruction::IfIcmpgt(v) => {
            push_u8(out, 0xA3);
            push_u16(out, #[verifier::truncate] (*v as u16));
        },
        Instruction::IfIcmple(v) => {
            push_u8(out, 0xA4);
            push_u16(out, #[verifier::truncate] (*v as u16));
        },
        Instruction::IfAcmpeq(v) => {
            push_u8(out, 0xA5);
            push_u16(out, #[verifier::truncate] (*v as u16));
        },
        Instruction::IfAcmpne(v) => {
            push_u8(out, 0xA6);
            push_u16(out, #[verifier::truncate] (*v as u16));
        },
        Instruction::Goto(v) => {
            push_u8(out, 0xA7);
            push_u16(out, #[verifier::truncate] (*v as u16));
        },
        Instruction::Jsr(v) => {
            push_u8(out, 0xA8);
            push_u16(out, #[verifier::truncate] (*v as u16));
        },
        Instruction::LdcW(v) => {
            push_u8(out, 0x13);
            push_u16(out, *v);
        },
        Instruction::Ldc2W(v) => {
            push_u8(out, 0x14);
            push_u16(out, *v);
        },
        Instruction::GetStatic(v) => {
            push_u8(out, 0xB2);
            push_u16(out, *v);
        },
        Instruction::PutStatic(v) => {
            push_u8(out, 0xB3);
            push_u16(out, *v);
        },
        Instruction::GetField(v) => {
            push_u8(out, 0xB4);
            push_u16(out, *v);
        },
        Instruction::PutField(v) => {
            push_u8(out, 0xB5);
            push_u16(out, *v);
        },
        Instruction::InvokeVirtual(v) => {
            push_u8(out, 0xB6);
            push_u16(out, *v);
        },
        Instruction::InvokeSpecial(v) => {
            push_u8(out, 0xB7);
            push_u16(out, *v);
        },
        Instruction::InvokeStatic(v) => {
            push_u8(out, 0xB8);
            push_u16(out, *v);
        },
        Instruction::New(v) => {
            push_u8(out, 0xBB);
            push_u16(out, *v);
        },
        Instruction::ANewArray(v) => {
            push_u8(out, 0xBD);
            push_u16(out, *v);
        },
        Instruction::CheckCast(v) => {
            push_u8(out, 0xC0);
            push_u16(out, *v);
        },
        Instruction::InstanceOf(v) => {
            push_u8(out, 0xC1);
            push_u16(out, *v);
        },
        Instruction::IfNull(v) => {
            push_u8(out, 0xC6);
            push_u16(out, *v);
        },
        Instruction::IfNonNull(v) => {
            push_u8(out, 0xC7);
            push_u16(out, *v);
        },
        Instruction::Bipush(v) => {
            push_u8(out, 0x10);
            push_u8(out, *v);
        },
        Instruction::Ldc(v) => {
            push_u8(out, 0x12);
            push_u8(out, *v);
        },
        Instruction::NewArray(v) => {
            push_u8(out, 0xBC);
            push_u8(out, *v);
        },
        Instruction::Ret(v) => {
            push_u8(out, 0xA9);
            push_u8(out, *v);
        },
        Instruction::GotoW(v) => {
            push_u8(out, 0xC8);
            push_u32(out, *v);
        },
        Instruction::JsrW(v) => {
            push_u8(out, 0xC9);
            push_u32(out, *v);
        },
        Instruction::ILoad(v) => {
            if *v < 4 {
                push_u8(out, 0x1A + *v);
            } else {
                push_u8(out, 0x15);
                push_u8(out, *v);
            }
        },
        Instruction::LLoad(v) => {
            if *v < 4 {
                push_u8(out, 0x1E + *v);
            } else {
                push_u8(out, 0x16);
                push_u8(out, *v);
            }
        },
        Instruction::FLoad(v) => {
            if *v < 4 {
                push_u8(out, 0x22 + *v);
            } else {
                push_u8(out, 0x17);
                push_u8(out, *v);
            }
        },
        Instruction::DLoad(v) => {
            if *v < 4 {
                push_u8(out, 0x26 + *v);
            } else {
                push_u8(out, 0x18);
                push_u8(out, *v);
            }
        },
        Instruction::ALoad(v) => {
            if *v < 4 {
                push_u8(out, 0x2A + *v);
            } else {
                push_u8(out, 0x19);
                push_u8(out, *v);
            }
        },
        Instruction::IStore(v) => {
            if *v < 4 {
                push_u8(out, 0x3B + *v);
            } else {
                push_u8(out, 0x36);
                push_u8(out, *v);
            }
        },
        Instruction::LStore(v) => {
            if *v < 4 {
                push_u8(out, 0x3F + *v);
            } else {
                push_u8(out, 0x37);
                push_u8(out, *v);
            }
        },
        Instruction::FStore(v) => {
            if *v < 4 {
                push_u8(out, 0x43 + *v);
            } else {
                push_u8(out, 0x38);
                push_u8(out, *v);
            }
        },
        Instruction::DStore(v) => {
            if *v < 4 {
                push_u8(out, 0x47 + *v);
            } else {
                push_u8(out, 0x39);
                push_u8(out, *v);
            }
        },
        Instruction::AStore(v) => {
            if *v < 4 {
                push_u8(out, 0x4B + *v);
            } else {
                push_u8(out, 0x3A);
                push_u8(out, *v);
            }
        },
        Instruction::ILoadW(v) => {
            push_u8(out, 0xC4);
            push_u8(out, 0x15);
            push_u16(out, *v);
        },
        Instruction::LLoadW(v) => {
            push_u8(out, 0xC4);
            push_u8(out, 0x16);
            push_u16(out, *v);
        },
        Instruction::FLoadW(v) => {
            push_u8(out, 0xC4);
            push_u8(out, 0x17);
            push_u16(out, *v);
        },
        Instruction::DLoadW(v) => {
            push_u8(out, 0xC4);
            push_u8(out, 0x18);
            push_u16(out, *v);
        },
        Instruction::ALoadW(v) => {
            push_u8(out, 0xC4);
            push_u8(out, 0x19);
            push_u16(out, *v);
        },
        Instruction::IStoreW(v) => {
            push_u8(out, 0xC4);
            push_u8(out, 0x36);
            push_u16(out, *v);
        },
        Instruction::LStoreW(v) => {
            push_u8(out, 0xC4);
            push_u8(out, 0x37);
            push_u16(out, *v);
        },
        Instruction::FStoreW(v) => {
            push_u8(out, 0xC4);
            push_u8(out, 0x38);
            push_u16(out, *v);
        },
        Instruction::DStoreW(v) => {
            push_u8(out, 0xC4);
            push_u8(out, 0x39);
            push_u16(out, *v);
        },
        Instruction::AStoreW(v) => {
            push_u8(out, 0xC4);
            push_u8(out, 0x3A);
            push_u16(out, *v);
        },
        Instruction::RetW(v) => {
            push_u8(out, 0xC4);
            push_u8(out, 0xA9);
            push_u16(out, *v);
        },
        Instruction::IConst(v) => push_u8(out, (*v + 0x03) as u8),
        Instruction::LConst(v) => push_u8(out, (*v + 0x09) as u8),
        Instruction::FConst(v) => push_u8(out, (*v + 0x0B) as u8),
        Instruction::DConst(v) => push_u8(out, (*v + 0x0E) as u8),
        Instruction::IInc(a, b) => {
            push_u8(out, 0x84);
            push_u8(out, *a);
            push_u8(out, #[verifier::truncate] (*b as u8));
        },
        Instruction::IIncW(a, b) => {
            push_u8(out, 0xC4);
            push_u8(out, 0x84);
            push_u16(out, *a);
            push_u16(out, *b);
        },
        Instruction::InvokeInterface { index, count } => {
            push_u8(out, 0xB9);
            push_u16(out, *index);
            push_u8(out, *count);
            push_u8(out, 0);
        },
        Instruction::InvokeDynamic(v) => {
            push_u8(out, 0xBA);
            push_u16(out, *v);
            push_u8(out, 0);
            push_u8(out, 0);
        },
        Instruction::MultiANewArray(a, b) => {
            push_u8(out, 0xC5);
            push_u16(out, *a);
            push_u8(out, *b);
        },
        Instruction::TableSwitch { padding, minimum, maximum, jump_targets, default } => {
            push_u8(out, 0xAA);
            push_zeros(out, *padding);
            push_u32(out, *default);
            push_u32(out, *minimum);
            push_u32(out, *maximum);
            write_u32s(out, jump_targets);
        },
        Instruction::LookupSwitch { padding, default, pairs } => {
            push_u8(out, 0xAB);
            push_zeros(out, *padding);
            push_u32(out, *default);
            push_u32(out, pairs.len() as u32);
            write_pairs(out, pairs);
        },
    }
    assert(out@ =~= start + ser_instr(*i));
}

/// Reads `n` big-endian `u32` values.
fn read_u32s(r: &mut ByteReader, n: usize) -> (res: Result<Vec<u32>, JavaError>)
    requires
        old(r).wf(),
    ensures
        old(r).moved_to(*final(r)),
        final(r).canonical == old(r).canonical,
        res matches Ok(v) ==> v@.len() == n && old(r).span(*final(r)) == ser_u32s(v@),
        res matches Err(e) ==> e is UnexpectedEnd || e is Malformed,
        4 * n <= old(r).remaining() ==> res is Ok && final(r).pos == old(r).pos + 4 * n,
{
    let mut v: Vec<u32> = Vec::new();
    let mut k: usize = 0;
    while k < n
        invariant
            r.wf(),
            old(r).moved_to(*r),
            r.canonical == old(r).canonical,
            k <= n,
            v@.len() == k,
            old(r).span(*r) == ser_u32s(v@),
            r.pos == old(r).pos + 4 * k,
        decreases n - k,
    {
        let ghost before = *r;
        let x = r.read_u32()?;
        proof {
            lemma_span_split(r.data@, old(r).pos as int, before.pos as int, r.pos as int);
            assert(v@.push(x).drop_last() =~= v@);
        }
        v.push(x);
        k = k + 1;
    }
    Ok(v)
}

/// Reads `n` `lookupswitch` pairs.
fn read_pairs(r: &mut ByteReader, n: usize) -> (res: Result<Vec<LookupSwitchPair>, JavaError>)
    requires
        old(r).wf(),
    ensures
        old(r).moved_to(*final(r)),
        final(r).canonical == old(r).canonical,
        res matches Ok(v) ==> v@.len() == n && old(r).span(*final(r)) == ser_pairs(v@),
        res matches Err(e) ==> e is UnexpectedEnd || e is Malformed,
        8 * n <= old(r).remaining() ==> res is Ok && final(r).pos == old(r).pos + 8 * n,
{
    let mut v: Vec<LookupSwitchPair> = Vec::new();
    let mut k: usize = 0;
    while k < n
        invariant
            r.wf(),
            old(r).moved_to(*r),
            r.canonical == old(r).canonical,
            k <= n,
            v@.len() == k,
            old(r).span(*r) == ser_pairs(v@),
            r.pos == old(r).pos + 8 * k,
        decreases n - k,
    {
        let ghost before = *r;
        let value = r.read_u32()?;
        let ghost mid = *r;
        let target = r.read_u32()?;
        let p = LookupSwitchPair { value, target };
        proof {
            lemma_span_split(r.data@, before.pos as int, mid.pos as int, r.pos as int);
            lemma_span_split(r.data@, old(r).pos as int, before.pos as int, r.pos as int);
            assert(v@.push(p).drop_last() =~= v@);
            assert(ser_pairs(v@.push(p)) =~= ser_pairs(v@) + before.span(*r));
        }
        v.push(p);
        k = k + 1;
    }
    Ok(v)
}

/// Skips the padding of a switch whose operands start after `old(r).pos`,
/// clearing `canonical` where a padding byte is not zero.
fn read_switch_padding(r: &mut ByteReader) -> (res: Result<u32, JavaError>)
    requires
        old(r).wf(),
    ensures
        old(r).moved_to(*final(r)),
        res matches Ok(p) ==> {
            &&& p as int == (4 - old(r).pos % 4) % 4
            &&& old(r).span(*final(r)).len() == p
            &&& final(r).canonical == (old(r).canonical && old(r).span(*final(r)) == zeros(p as nat))
        },
        res matches Err(e) ==> e is UnexpectedEnd || e is Malformed,
        old(r).remaining() >= (4 - old(r).pos % 4) % 4 ==> res is Ok,
{
    let p: u32 = ((4 - r.pos % 4) % 4) as u32;
    let mut k: u32 = 0;
    let mut all_zero = true;
    assert(old(r).span(*r) =~= zeros(0nat));
    while k < p
        invariant
            r.wf(),
            old(r).moved_to(*r),
            r.canonical == old(r).canonical,
            k <= p,
            r.pos == old(r).pos + k,
            p as int == (4 - old(r).pos % 4) % 4,
            all_zero == (old(r).span(*r) == zeros(k as nat)),
        decreases p - k,
    {
        let ghost before = *r;
        let b = r.read_u8()?;
        proof {
            lemma_span_split(r.data@, old(r).pos as int, before.pos as int, r.pos as int);
            assert(zeros((k + 1) as nat) =~= zeros(k as nat) + seq![0u8]);
            lemma_concat_eq(old(r).span(before), seq![b], zeros(k as nat), seq![0u8]);
            assert((seq![b] == seq![0u8]) <==> b == 0) by {
                if seq![b] == seq![0u8] {
                    assert(seq![b][0] == seq![0u8][0]);
                }
            }
        }
        if b != 0 {
            all_zero = false;
        }
        k = k + 1;
    }
    if !all_zero {
        r.canonical = false;
    }
    Ok(p)
}

/// Reads a `tableswitch` after its opcode, which stood at `old(r).pos - 1`.
fn read_table_switch(r: &mut ByteReader, t: Ghost<Instruction>) -> (res: Result<Instruction, JavaError>)
    requires
        old(r).wf(),
        old(r).pos >= 1,
    ensures
        old(r).moved_to(*final(r)),
        res matches Ok(i) ==> {
            &&& decoded_at(i, old(r).pos - 1)
            &&& final(r).canonical == (old(r).canonical && ser_instr(i) == seq![0xAAu8] + old(r).span(*final(r)))
            &&& reads_as(i, seq![0xAAu8] + old(r).span(*final(r)))
        },
        res matches Err(e) ==> e is UnexpectedEnd || e is Malformed,
        old(r).canonical && t@ is TableSwitch && decodable_at(t@, old(r).pos - 1) && starts_at(
            old(r).data@,
            old(r).pos as int,
            ser_instr(t@).subrange(1, ser_instr(t@).len() as int),
        ) ==> (res is Ok && final(r).canonical && final(r).pos == old(r).pos + ser_instr(t@).len() - 1),
{
    reveal(reads_as);
    let ghost r0 = *r;
    let ghost tt = t@;
    let ghost pre = r0.canonical && tt is TableSwitch && decodable_at(tt, r0.pos - 1) && starts_at(
        r0.data@,
        r0.pos as int,
        ser_instr(tt).subrange(1, ser_instr(tt).len() as int),
    );
    let ghost tp = tt->TableSwitch_padding;
    let ghost a = zeros(tp as nat);
    let ghost b = be_u32(tt->TableSwitch_default);
    let ghost c = be_u32(tt->TableSwitch_minimum);
    let ghost d = be_u32(tt->TableSwitch_maximum);
    let ghost e = ser_u32s(tt->TableSwitch_jump_targets@);
    proof {
        if pre {
            assert(ser_instr(tt).subrange(1, ser_instr(tt).len() as int) =~= a + b + c + d + e);
            lemma_starts_concat(r0.data@, r0.pos as int, a + b + c + d, e);
            lemma_starts_concat(r0.data@, r0.pos as int, a + b + c, d);
            lemma_starts_concat(r0.data@, r0.pos as int, a + b, c);
            lemma_starts_concat(r0.data@, r0.pos as int, a, b);
            lemma_ser_u32s_len(tt->TableSwitch_jump_targets@);
        }
    }
    let padding = read_switch_padding(r)?;
    let ghost r1 = *r;
    let default = r.read_u32()?;
    let ghost r2 = *r;
    let minimum = r.read_u32()?;
    let ghost r3 = *r;
    let maximum = r.read_u32()?;
    let ghost r4 = *r;
    proof {
        if pre {
            assert(r0.span(r1) =~= r0.data@.subrange(r0.pos as int, r0.pos + tp));
            assert(r2.span(r3) =~= r2.data@.subrange(r2.pos as int, r2.pos + 4));
            assert(r3.span(r4) =~= r3.data@.subrange(r3.pos as int, r3.pos + 4));
            lemma_be_u32_injective(minimum, tt->TableSwitch_minimum);
            lemma_be_u32_injective(maximum, tt->TableSwitch_maximum);
        }
    }
    let lo = #[verifier::truncate] (minimum as i32);
    let hi = #[verifier::truncate] (maximum as i32);
    if hi < lo {
        return Err(JavaError::Malformed);
    }
    let n: u64 = (hi as i64 - lo as i64 + 1) as u64;
    if n > ((r.data.len() - r.pos) / 4) as u64 {
        return Err(JavaError::UnexpectedEnd);
    }
    let jump_targets = read_u32s(r, n as usize)?;
    let i = Instruction::TableSwitch { padding, minimum, maximum, jump_targets, default };
    proof {
        if pre {
            assert(r1.pos + 12 + e.len() == r0.pos + ser_instr(tt).len() - 1);
        }
    }
    proof {
        lemma_span_split(r.data@, r3.pos as int, r4.pos as int, r.pos as int);
        lemma_span_split(r.data@, r2.pos as int, r3.pos as int, r.pos as int);
        lemma_span_split(r.data@, r1.pos as int, r2.pos as int, r.pos as int);
        lemma_span_split(r.data@, r0.pos as int, r1.pos as int, r.pos as int);
        let rest = r1.span(*r);
        assert(ser_instr(i) =~= seq![0xAAu8] + zeros(padding as nat) + rest);
        assert(seq![0xAAu8] + r0.span(*r) =~= seq![0xAAu8] + r0.span(r1) + rest);
        lemma_concat_eq(seq![0xAAu8] + zeros(padding as nat), rest, seq![0xAAu8] + r0.span(r1), rest);
        lemma_concat_eq(seq![0xAAu8], zeros(padding as nat), seq![0xAAu8], r0.span(r1));
        let whole = seq![0xAAu8] + r0.span(*r);
        assert(whole.subrange(1 + padding, whole.len() as int) =~= rest);
        assert(ser_instr(i).subrange(1 + padding, whole.len() as int) =~= rest);
    }
    Ok(i)
}

/// Reads a `lookupswitch` after its opcode, which stood at `old(r).pos - 1`.
fn read_lookup_switch(r: &mut ByteReader, t: Ghost<Instruction>) -> (res: Result<Instruction, JavaError>)
    requires
        old(r).wf(),
        old(r).pos >= 1,
    ensures
        old(r).moved_to(*final(r)),
        res matches Ok(i) ==> {
            &&& decoded_at(i, old(r).pos - 1)
            &&& final(r).canonical == (old(r).canonical && ser_instr(i) == seq![0xABu8] + old(r).span(*final(r)))
            &&& reads_as(i, seq![0xABu8] + old(r).span(*final(r)))
        },
        res matches Err(e) ==> e is UnexpectedEnd || e is Malformed,
        old(r).canonical && t@ is LookupSwitch && decodable_at(t@, old(r).pos - 1) && starts_at(
            old(r).data@,
            old(r).pos as int,
            ser_instr(t@).subrange(1, ser_instr(t@).len() as int),
        ) ==> (res is Ok && final(r).canonical && final(r).pos == old(r).pos + ser_instr(t@).len() - 1),
{
    reveal(reads_as);
    let ghost r0 = *r;
    let ghost tt = t@;
    let ghost pre = r0.canonical && tt is LookupSwitch && decodable_at(tt, r0.pos - 1) && starts_at(
        r0.data@,
        r0.pos as int,
        ser_instr(tt).subrange(1, ser_instr(tt).len() as int),
    );
    let ghost tp = tt->LookupSwitch_padding;
    let ghost ps = tt->LookupSwitch_pairs@;
    let ghost a = zeros(tp as nat);
    let ghost b = be_u32(tt->LookupSwitch_default);
    let ghost c = be_u32(ps.len() as u32);
    let ghost e = ser_pairs(ps);
    proof {
        if pre {
            assert(ser_instr(tt).subrange(1, ser_instr(tt).len() as int) =~= a + b + c + e);
            lemma_starts_concat(r0.data@, r0.pos as int, a + b + c, e);
            lemma_starts_concat(r0.data@, r0.pos as int, a + b, c);
            lemma_starts_concat(r0.data@, r0.pos as int, a, b);
            lemma_ser_pairs_len(ps);
        }
    }
    let padding = read_switch_padding(r)?;
    let ghost r1 = *r;
    let default = r.read_u32()?;
    let ghost r2 = *r;
    let npairs = r.read_u32()?;
    let ghost r3 = *r;
    proof {
        if pre {
            assert(r0.span(r1) =~= r0.data@.subrange(r0.pos as int, r0.pos + tp));
            assert(r2.span(r3) =~= r2.data@.subrange(r2.pos as int, r2.pos + 4));
            lemma_be_u32_injective(npairs, ps.len() as u32);
        }
    }
    if npairs as usize > (r.data.len() - r.pos) / 8 {
        return Err(JavaError::UnexpectedEnd);
    }
    let pairs = read_pairs(r, npairs as usize)?;
    let i = Instruction::LookupSwitch { padding, default, pairs };
    proof {
        lemma_span_split(r.data@, r2.pos as int, r3.pos as int, r.pos as int);
        lemma_span_split(r.data@, r1.pos as int, r2.pos as int, r.pos as int);
        lemma_span_split(r.data@, r0.pos as int, r1.pos as int, r.pos as int);
        let rest = r1.span(*r);
        assert(ser_instr(i) =~= seq![0xABu8] + zeros(padding as nat) + rest);
        assert(seq![0xABu8] + r0.span(*r) =~= seq![0xABu8] + r0.span(r1) + rest);
        lemma_concat_eq(seq![0xABu8] + zeros(padding as nat), rest, seq![0xABu8] + r0.span(r1), rest);
        lemma_concat_eq(seq![0xABu8], zeros(padding as nat), seq![0xABu8], r0.span(r1));
        let whole = seq![0xABu8] + r0.span(*r);
        assert(whole.subrange(1 + padding, whole.len() as int) =~= rest);
        assert(ser_instr(i).subrange(1 + padding, whole.len() as int) =~= rest);
    }
    Ok(i)
}

/// Reads the instruction that a `wide` prefix modifies.
#[verifier::rlimit(100)]
fn read_wide(r: &mut ByteReader, t: Ghost<Instruction>) -> (res: Result<Instruction, JavaError>)
    requires
        old(r).wf(),
    ensures
        old(r).moved_to(*final(r)),
        final(r).canonical == old(r).canonical,
        res matches Ok(i) ==> encodable(i) && !(i is TableSwitch || i is LookupSwitch)
            && ser_instr(i) == seq![0xC4u8] + old(r).span(*final(r)),
        res matches Err(JavaError::UnknownOpcode(x)) ==> old(r).pos < old(r).data@.len() && x == old(r).data@[old(r).pos as int]
            && !wide_target(x),
        old(r).canonical && opcode_of(t@) == 0xC4 && encodable(t@) && starts_at(
            old(r).data@,
            old(r).pos as int,
            ser_instr(t@).subrange(1, ser_instr(t@).len() as int),
        ) ==> (res is Ok && final(r).canonical == old(r).canonical && final(r).pos == old(r).pos + ser_instr(t@).len() - 1),
{
    let ghost r0 = *r;
    let ghost pre = r0.canonical && opcode_of(t@) == 0xC4 && encodable(t@) && starts_at(
        r0.data@,
        r0.pos as int,
        ser_instr(t@).subrange(1, ser_instr(t@).len() as int),
    );
    let op = r.read_u8()?;
    assert(r0.span(*r)[0] == r0.data@[r0.pos as int]);
    proof {
        if pre {
            let rest = ser_instr(t@).subrange(1, ser_instr(t@).len() as int);
            assert(rest.len() >= 3);
            assert(rest[0] == r0.data@.subrange(r0.pos as int, r0.pos + rest.len())[0]);
            assert(r0.data@[r0.pos as int] == rest[0]);
            assert(op == rest[0]);
        }
    }
    let ghost r1 = *r;
    let index = r.read_u16()?;
    let ghost r2 = *r;
    let i = match op {
        0x15 => Instruction::ILoadW(index),
        0x16 => Instruction::LLoadW(index),
        0x17 => Instruction::FLoadW(index),
        0x18 => Instruction::DLoadW(index),
        0x19 => Instruction::ALoadW(index),
        0x36 => Instruction::IStoreW(index),
        0x37 => Instruction::LStoreW(index),
        0x38 => Instruction::FStoreW(index),
        0x39 => Instruction::DStoreW(index),
        0x3A => Instruction::AStoreW(index),
        0xA9 => Instruction::RetW(index),
        0x84 => Instruction::IIncW(index, r.read_u16()?),
        _ => {
            return Err(JavaError::UnknownOpcode(op));
        },
    };
    proof {
        lemma_span_split(r.data@, r1.pos as int, r2.pos as int, r.pos as int);
        lemma_span_split(r.data@, r0.pos as int, r1.pos as int, r.pos as int);
        if r2.pos == r.pos {
            assert(r2.span(*r) =~= Seq::<u8>::empty());
        }
        assert(ser_instr(i) =~= seq![0xC4u8] + r0.span(*r));
    }
    Ok(i)
}

/// Reads the operands of the instruction with opcode `op`, which stood at
/// `old(r).pos - 1`; opcodes below `0x80`.
#[verifier::rlimit(100)]
#[verifier::spinoff_prover]
fn read_operands_low(r: &mut ByteReader, op: u8, t: Ghost<Instruction>) -> (res: Result<Instruction, JavaError>)
    requires
        old(r).wf(),
        old(r).pos >= 1,
        op < 0x80,
    ensures
        old(r).moved_to(*final(r)),
        res matches Ok(i) ==> {
            &&& decoded_at(i, old(r).pos - 1)
            &&& final(r).canonical == (old(r).canonical && seq![op] + old(r).span(*final(r)) == ser_instr(i))
            &&& reads_as(i, seq![op] + old(r).span(*final(r)))
        },
        res matches Err(JavaError::UnknownOpcode(x)) ==> (x == op && op > 0xC9) || (op == 0xC4
            && old(r).pos < old(r).data@.len() && x == old(r).data@[old(r).pos as int] && !wide_target(x)),
        old(r).canonical && opcode_of(t@) == op && decodable_at(t@, old(r).pos - 1) && starts_at(
            old(r).data@,
            old(r).pos as int,
            ser_instr(t@).subrange(1, ser_instr(t@).len() as int),
        ) ==> (res is Ok && final(r).canonical && final(r).pos == old(r).pos + ser_instr(t@).len() - 1),
{
    reveal(reads_as);
    let ghost pre = r.canonical && opcode_of(t@) == op && decodable_at(t@, r.pos - 1) && starts_at(
        r.data@,
        r.pos as int,
        ser_instr(t@).subrange(1, ser_instr(t@).len() as int),
    );
    proof {
        if pre {
            lemma_instr_first(t@);
        }
    }
    let i = match op {
        0x00 => Instruction::Nop,
        0x01 => Instruction::ANull,
        0x2E => Instruction::IALoad,
        0x2F => Instruction::LALoad,
        0x30 => Instruction::FALoad,
        0x31 => Instruction::DALoad,
        0x32 => Instruction::AALoad,
        0x33 => Instruction::BALoad,
        0x34 => Instruction::CALoad,
        0x35 => Instruction::SALoad,
        0x4F => Instruction::IAStore,
        0x50 => Instruction::LAStore,
        0x51 => Instruction::FAStore,
        0x52 => Instruction::DAStore,
        0x53 => Instruction::AAStore,
        0x54 => Instruction::BAStore,
        0x55 => Instruction::CAStore,
        0x56 => Instruction::SAStore,
        0x57 => Instruction::Pop,
        0x58 => Instruction::Pop2,
        0x59 => Instruction::Dup,
        0x5A => Instruction::DupX1,
        0x5B => Instruction::DupX2,
        0x5C => Instruction::Dup2,
        0x5D => Instruction::Dup2X1,
        0x5E => Instruction::Dup2X2,
        0x5F => Instruction::Swap,
        0x60 => Instruction::IAdd,
        0x61 => Instruction::LAdd,
        0x62 => Instruction::FAdd,
        0x63 => Instruction::DAdd,
        0x64 => Instruction::ISub,
        0x65 => Instruction::LSub,
        0x66 => Instruction::FSub,
        0x67 => Instruction::DSub,
        0x68 => Instruction::IMul,
        0x69 => Instruction::LMul,
        0x6A => Instruction::FMul,
        0x6B => Instruction::DMul,
        0x6C => Instruction::IDiv,
        0x6D => Instruction::LDiv,
        0x6E => Instruction::FDiv,
        0x6F => Instruction::DDiv,
        0x70 => Instruction::IRem,
        0x71 => Instruction::LRem,
        0x72 => Instruction::FRem,
        0x73 => Instruction::DRem,
        0x74 => Instruction::INeg,
        0x75 => Instruction::LNeg,
        0x76 => Instruction::FNeg,
        0x77 => Instruction::DNeg,
        0x78 => Instruction::IShl,
        0x79 => Instruction::LShl,
        0x7A => Instruction::IShr,
        0x7B => Instruction::LShr,
        0x7C => Instruction::IUShr,
        0x7D => Instruction::LUShr,
        0x7E => Instruction::IAnd,
        0x7F => Instruction::LAnd,
        0x11 => {
            let v = r.read_u16()?;
            proof { lemma_u16_i16(v); }
            Instruction::Sipush(#[verifier::truncate] (v as i16))
        },
        0x13 => Instruction::LdcW(r.read_u16()?),
        0x14 => Instruction::Ldc2W(r.read_u16()?),
        0x10 => {
            let v = r.read_u8()?;
            assert(seq![op] + old(r).span(*r) =~= seq![op, v]);
            Instruction::Bipush(v)
        },
        0x12 => {
            let v = r.read_u8()?;
            assert(seq![op] + old(r).span(*r) =~= seq![op, v]);
            Instruction::Ldc(v)
        },
        0x15 => {
            let v = r.read_u8()?;
            if v < 4 {
                r.canonical = false;
                assert(ser_instr(Instruction::ILoad(v)).len() == 1);
                assert((seq![op] + old(r).span(*r)).len() == 2);
                assert(seq![op] + old(r).span(*r) =~= seq![op, v]);
                assert(long_form(Instruction::ILoad(v)) =~= seq![op, v]);
            } else {
                assert(seq![op] + old(r).span(*r) =~= seq![op, v]);
            }
            proof {
                if pre {
                    let rest = ser_instr(t@).subrange(1, ser_instr(t@).len() as int);
                    assert(old(r).span(*r)[0] == old(r).data@[old(r).pos as int]);
                    assert(rest[0] == old(r).data@.subrange(old(r).pos as int, old(r).pos + rest.len())[0]);
                }
            }
            Instruction::ILoad(v)
        },
        0x1A..=0x1D => Instruction::ILoad(op - 0x1A),
        0x16 => {
            let v = r.read_u8()?;
            if v < 4 {
                r.canonical = false;
                assert(ser_instr(Instruction::LLoad(v)).len() == 1);
                assert((seq![op] + old(r).span(*r)).len() == 2);
                assert(seq![op] + old(r).span(*r) =~= seq![op, v]);
                assert(long_form(Instruction::LLoad(v)) =~= seq![op, v]);
            } else {
                assert(seq![op] + old(r).span(*r) =~= seq![op, v]);
            }
            proof {
                if pre {
                    let rest = ser_instr(t@).subrange(1, ser_instr(t@).len() as int);
                    assert(old(r).span(*r)[0] == old(r).data@[old(r).pos as int]);
                    assert(rest[0] == old(r).data@.subrange(old(r).pos as int, old(r).pos + rest.len())[0]);
                }
            }
            Instruction::LLoad(v)
        },
        0x1E..=0x21 => Instruction::LLoad(op - 0x1E),
        0x17 => {
            let v = r.read_u8()?;
            if v < 4 {
                r.canonical = false;
                assert(ser_instr(Instruction::FLoad(v)).len() == 1);
                assert((seq![op] + old(r).span(*r)).len() == 2);
                assert(seq![op] + old(r).span(*r) =~= seq![op, v]);
                assert(long_form(Instruction::FLoad(v)) =~= seq![op, v]);
            } else {
                assert(seq![op] + old(r).span(*r) =~= seq![op, v]);
            }
            proof {
                if pre {
                    let rest = ser_instr(t@).subrange(1, ser_instr(t@).len() as int);
                    assert(old(r).span(*r)[0] == old(r).data@[old(r).pos as int]);
                    assert(rest[0] == old(r).data@.subrange(old(r).pos as int, old(r).pos + rest.len())[0]);
                }
            }
            Instruction::FLoad(v)
        },
        0x22..=0x25 => Instruction::FLoad(op - 0x22),
        0x18 => {
            let v = r.read_u8()?;
            if v < 4 {
                r.canonical = false;
                assert(ser_instr(Instruction::DLoad(v)).len() == 1);
                assert((seq![op] + old(r).span(*r)).len() == 2);
                assert(seq![op] + old(r).span(*r) =~= seq![op, v]);
                assert(long_form(Instruction::DLoad(v)) =~= seq![op, v]);
            } else {
                assert(seq![op] + old(r).span(*r) =~= seq![op, v]);
            }
            proof {
                if pre {
                    let rest = ser_instr(t@).subrange(1, ser_instr(t@).len() as int);
                    assert(old(r).span(*r)[0] == old(r).data@[old(r).pos as int]);
                    assert(rest[0] == old(r).data@.subrange(old(r).pos as int, old(r).pos + rest.len())[0]);
                }
            }
            Instruction::DLoad(v)
        },
        0x26..=0x29 => Instruction::DLoad(op - 0x26),
        0x19 => {
            let v = r.read_u8()?;
            if v < 4 {
                r.canonical = false;
                assert(ser_instr(Instruction::ALoad(v)).len() == 1);
                assert((seq![op] + old(r).span(*r)).len() == 2);
                assert(seq![op] + old(r).span(*r) =~= seq![op, v]);
                assert(long_form(Instruction::ALoad(v)) =~= seq![op, v]);
            } else {
                assert(seq![op] + old(r).span(*r) =~= seq![op, v]);
            }
            proof {
                if pre {
                    let rest = ser_instr(t@).subrange(1, ser_instr(t@).len() as int);
                    assert(old(r).span(*r)[0] == old(r).data@[old(r).pos as int]);
                    assert(rest[0] == old(r).data@.subrange(old(r).pos as int, old(r).pos + rest.len())[0]);
                }
            }
            Instruction::ALoad(v)
        },
        0x2A..=0x2D => Instruction::ALoad(op - 0x2A),
        0x36 => {
            let v = r.read_u8()?;
            if v < 4 {
                r.canonical = false;
                assert(ser_instr(Instruction::IStore(v)).len() == 1);
                assert((seq![op] + old(r).span(*r)).len() == 2);
                assert(seq![op] + old(r).span(*r) =~= seq![op, v]);
                assert(long_form(Instruction::IStore(v)) =~= seq![op, v]);
            } else {
                assert(seq![op] + old(r).span(*r) =~= seq![op, v]);
            }
            proof {
                if pre {
                    let rest = ser_instr(t@).subrange(1, ser_instr(t@).len() as int);
                    assert(old(r).span(*r)[0] == old(r).data@[old(r).pos as int]);
                    assert(rest[0] == old(r).data@.subrange(old(r).pos as int, old(r).pos + rest.len())[0]);
                }
            }
            Instruction::IStore(v)
        },
        0x3B..=0x3E => Instruction::IStore(op - 0x3B),
        0x37 => {
            let v = r.read_u8()?;
            if v < 4 {
                r.canonical = false;
                assert(ser_instr(Instruction::LStore(v)).len() == 1);
                assert((seq![op] + old(r).span(*r)).len() == 2);
                assert(seq![op] + old(r).span(*r) =~= seq![op, v]);
                assert(long_form(Instruction::LStore(v)) =~= seq![op, v]);
            } else {
                assert(seq![op] + old(r).span(*r) =~= seq![op, v]);
            }
            proof {
                if pre {
                    let rest = ser_instr(t@).subrange(1, ser_instr(t@).len() as int);
                    assert(old(r).span(*r)[0] == old(r).data@[old(r).pos as int]);
                    assert(rest[0] == old(r).data@.subrange(old(r).pos as int, old(r).pos + rest.len())[0]);
                }
            }
            Instruction::LStore(v)
        },
        0x3F..=0x42 => Instruction::LStore(op - 0x3F),
        0x38 => {
            let v = r.read_u8()?;
            if v < 4 {
                r.canonical = false;
                assert(ser_instr(Instruction::FStore(v)).len() == 1);
                assert((seq![op] + old(r).span(*r)).len() == 2);
                assert(seq![op] + old(r).span(*r) =~= seq![op, v]);
                assert(long_form(Instruction::FStore(v)) =~= seq![op, v]);
            } else {
                assert(seq![op] + old(r).span(*r) =~= seq![op, v]);
            }
            proof {
                if pre {
                    let rest = ser_instr(t@).subrange(1, ser_instr(t@).len() as int);
                    assert(old(r).span(*r)[0] == old(r).data@[old(r).pos as int]);
                    assert(rest[0] == old(r).data@.subrange(old(r).pos as int, old(r).pos + rest.len())[0]);
                }
            }
            Instruction::FStore(v)
        },
        0x43..=0x46 => Instruction::FStore(op - 0x43),
        0x39 => {
            let v = r.read_u8()?;
            if v < 4 {
                r.canonical = false;
                assert(ser_instr(Instruction::DStore(v)).len() == 1);
                assert((seq![op] + old(r).span(*r)).len() == 2);
                assert(seq![op] + old(r).span(*r) =~= seq![op, v]);
                assert(long_form(Instruction::DStore(v)) =~= seq![op, v]);
            } else {
                assert(seq![op] + old(r).span(*r) =~= seq![op, v]);
            }
            proof {
                if pre {
                    let rest = ser_instr(t@).subrange(1, ser_instr(t@).len() as int);
                    assert(old(r).span(*r)[0] == old(r).data@[old(r).pos as int]);
                    assert(rest[0] == old(r).data@.subrange(old(r).pos as int, old(r).pos + rest.len())[0]);
                }
            }
            Instruction::DStore(v)
        },
        0x47..=0x4A => Instruction::DStore(op - 0x47),
        0x3A => {
            let v = r.read_u8()?;
            if v < 4 {
                r.canonical = false;
                assert(ser_instr(Instruction::AStore(v)).len() == 1);
                assert((seq![op] + old(r).span(*r)).len() == 2);
                assert(seq![op] + old(r).span(*r) =~= seq![op, v]);
                assert(long_form(Instruction::AStore(v)) =~= seq![op, v]);
            } else {
                assert(seq![op] + old(r).span(*r) =~= seq![op, v]);
            }
            proof {
                if pre {
                    let rest = ser_instr(t@).subrange(1, ser_instr(t@).len() as int);
                    assert(old(r).span(*r)[0] == old(r).data@[old(r).pos as int]);
                    assert(rest[0] == old(r).data@.subrange(old(r).pos as int, old(r).pos + rest.len())[0]);
                }
            }
            Instruction::AStore(v)
        },
        0x4B..=0x4E => Instruction::AStore(op - 0x4B),
        0x02..=0x08 => Instruction::IConst(op as i32 - 3),
        0x09..=0x0A => Instruction::LConst(op as i64 - 9),
        0x0B..=0x0D => Instruction::FConst(op - 0x0B),
        0x0E..=0x0F => Instruction::DConst(op - 0x0E),
        _ => {
            return Err(JavaError::UnknownOpcode(op));
        },
    };
    proof {
        if old(r).pos == r.pos {
            assert(old(r).span(*r) =~= Seq::<u8>::empty());
            assert(seq![op] + old(r).span(*r) =~= seq![op]);
        }
    }
    Ok(i)
}

/// Reads the operands of the instruction with opcode `op`, which stood at
/// `old(r).pos - 1`; opcodes from `0x80` to `0xAF`.
#[verifier::rlimit(100)]
#[verifier::spinoff_prover]
fn read_operands_mid(r: &mut ByteReader, op: u8, t: Ghost<Instruction>) -> (res: Result<Instruction, JavaError>)
    requires
        old(r).wf(),
        old(r).pos >= 1,
        0x80 <= op < 0xB0,
    ensures
        old(r).moved_to(*final(r)),
        res matches Ok(i) ==> {
            &&& decoded_at(i, old(r).pos - 1)
            &&& final(r).canonical == (old(r).canonical && seq![op] + old(r).span(*final(r)) == ser_instr(i))
            &&& reads_as(i, seq![op] + old(r).span(*final(r)))
        },
        res matches Err(JavaError::UnknownOpcode(x)) ==> (x == op && op > 0xC9) || (op == 0xC4
            && old(r).pos < old(r).data@.len() && x == old(r).data@[old(r).pos as int] && !wide_target(x)),
        old(r).canonical && opcode_of(t@) == op && decodable_at(t@, old(r).pos - 1) && starts_at(
            old(r).data@,
            old(r).pos as int,
            ser_instr(t@).subrange(1, ser_instr(t@).len() as int),
        ) ==> (res is Ok && final(r).canonical && final(r).pos == old(r).pos + ser_instr(t@).len() - 1),
{
    reveal(reads_as);
    let ghost pre = r.canonical && opcode_of(t@) == op && decodable_at(t@, r.pos - 1) && starts_at(
        r.data@,
        r.pos as int,
        ser_instr(t@).subrange(1, ser_instr(t@).len() as int),
    );
    proof {
        if pre {
            lemma_instr_first(t@);
        }
    }
    let i = match op {
        0x80 => Instruction::IOr,
        0x81 => Instruction::LOr,
        0x82 => Instruction::IXor,
        0x83 => Instruction::LXor,
        0x85 => Instruction::I2L,
        0x86 => Instruction::I2F,
        0x87 => Instruction::I2D,
        0x88 => Instruction::L2I,
        0x89 => Instruction::L2F,
        0x8A => Instruction::L2D,
        0x8B => Instruction::F2I,
        0x8C => Instruction::F2L,
        0x8D => Instruction::F2D,
        0x8E => Instruction::D2I,
        0x8F => Instruction::D2L,
        0x90 => Instruction::D2F,
        0x91 => Instruction::I2B,
        0x92 => Instruction::I2C,
        0x93 => Instruction::I2S,
        0x94 => Instruction::LCmp,
        0x95 => Instruction::FCmpl,
        0x96 => Instruction::FCmpg,
        0x97 => Instruction::DCmpl,
        0x98 => Instruction::DCmpg,
        0xAC => Instruction::IReturn,
        0xAD => Instruction::LReturn,
        0xAE => Instruction::FReturn,
        0xAF => Instruction::DReturn,
        0x99 => {
            let v = r.read_u16()?;
            proof { lemma_u16_i16(v); }
            Instruction::Ifeq(#[verifier::truncate] (v as i16))
        },
        0x9A => {
            let v = r.read_u16()?;
            proof { lemma_u16_i16(v); }
            Instruction::Ifne(#[verifier::truncate] (v as i16))
        },
        0x9B => {
            let v = r.read_u16()?;
            proof { lemma_u16_i16(v); }
            Instruction::Iflt(#[verifier::truncate] (v as i16))
        },
        0x9C => {
            let v = r.read_u16()?;
            proof { lemma_u16_i16(v); }
            Instruction::Ifge(#[verifier::truncate] (v as i16))
        },
        0x9D => {
            let v = r.read_u16()?;
            proof { lemma_u16_i16(v); }
            Instruction::Ifgt(#[verifier::truncate] (v as i16))
        },
        0x9E => {
            let v = r.read_u16()?;
            proof { lemma_u16_i16(v); }
            Instruction::Ifle(#[verifier::truncate] (v as i16))
        },
        0x9F => {
            let v = r.read_u16()?;
            proof { lemma_u16_i16(v); }
            Instruction::IfIcmpeq(#[verifier::truncate] (v as i16))
        },
        0xA0 => {
            let v = r.read_u16()?;
            proof { lemma_u16_i16(v); }
            Instruction::IfIcmpne(#[verifier::truncate] (v as i16))
        },
        0xA1 => {
            let v = r.read_u16()?;
            proof { lemma_u16_i16(v); }
            Instruction::IfIcmplt(#[verifier::truncate] (v as i16))
        },
        0xA2 => {
            let v = r.read_u16()?;
            proof { lemma_u16_i16(v); }
            Instruction::IfIcmpge(#[verifier::truncate] (v as i16))
        },
        0xA3 => {
            let v = r.read_u16()?;
            proof { lemma_u16_i16(v); }
            Instruction::IfIcmpgt(#[verifier::truncate] (v as i16))
        },
        0xA4 => {
            let v = r.read_u16()?;
            proof { lemma_u16_i16(v); }
            Instruction::IfIcmple(#[verifier::truncate] (v as i16))
        },
        0xA5 => {
            let v = r.read_u16()?;
            proof { lemma_u16_i16(v); }
            Instruction::IfAcmpeq(#[verifier::truncate] (v as i16))
        },
        0xA6 => {
            let v = r.read_u16()?;
            proof { lemma_u16_i16(v); }
            Instruction::IfAcmpne(#[verifier::truncate] (v as i16))
        },
        0xA7 => {
            let v = r.read_u16()?;
            proof { lemma_u16_i16(v); }
            Instruction::Goto(#[verifier::truncate] (v as i16))
        },
        0xA8 => {
            let v = r.read_u16()?;
            proof { lemma_u16_i16(v); }
            Instruction::Jsr(#[verifier::truncate] (v as i16))
        },
        0xA9 => {
            let v = r.read_u8()?;
            assert(seq![op] + old(r).span(*r) =~= seq![op, v]);
            Instruction::Ret(v)
        },
        0x84 => {
            let a = r.read_u8()?;
            let ghost mid = *r;
            let b = r.read_u8()?;
            proof {
                lemma_u8_i8(b);
                lemma_span_split(r.data@, old(r).pos as int, mid.pos as int, r.pos as int);
                assert(seq![op] + old(r).span(*r) =~= seq![op, a, b]);
            }
            Instruction::IInc(a, #[verifier::truncate] (b as i8))
        },
        0xAA => {
            let ghost before = *r;
            let i = read_table_switch(r, t)?;
            assert(seq![op] =~= seq![0xAAu8]);
            assert(before.pos == old(r).pos);
            i
        },
        0xAB => {
            let ghost before = *r;
            let i = read_lookup_switch(r, t)?;
            assert(seq![op] =~= seq![0xABu8]);
            assert(before.pos == old(r).pos);
            i
        },
        _ => {
            return Err(JavaError::UnknownOpcode(op));
        },
    };
    proof {
        if old(r).pos == r.pos {
            assert(old(r).span(*r) =~= Seq::<u8>::empty());
            assert(seq![op] + old(r).span(*r) =~= seq![op]);
        }
    }
    Ok(i)
}

/// Reads the operands of the instruction with opcode `op`, which stood at
/// `old(r).pos - 1`; opcodes from `0xB0` on.
#[verifier::rlimit(100)]
#[verifier::spinoff_prover]
fn read_operands_high(r: &mut ByteReader, op: u8, t: Ghost<Instruction>) -> (res: Result<Instruction, JavaError>)
    requires
        old(r).wf(),
        old(r).pos >= 1,
        op >= 0xB0,
    ensures
        old(r).moved_to(*final(r)),
        res matches Ok(i) ==> {
            &&& decoded_at(i, old(r).pos - 1)
            &&& final(r).canonical == (old(r).canonical && seq![op] + old(r).span(*final(r)) == ser_instr(i))
            &&& reads_as(i, seq![op] + old(r).span(*final(r)))
        },
        res matches Err(JavaError::UnknownOpcode(x)) ==> (x == op && op > 0xC9) || (op == 0xC4
            && old(r).pos < old(r).data@.len() && x == old(r).data@[old(r).pos as int] && !wide_target(x)),
        old(r).canonical && opcode_of(t@) == op && decodable_at(t@, old(r).pos - 1) && starts_at(
            old(r).data@,
            old(r).pos as int,
            ser_instr(t@).subrange(1, ser_instr(t@).len() as int),
        ) ==> (res is Ok && final(r).canonical && final(r).pos == old(r).pos + ser_instr(t@).len() - 1),
{
    reveal(reads_as);
    let ghost pre = r.canonical && opcode_of(t@) == op && decodable_at(t@, r.pos - 1) && starts_at(
        r.data@,
        r.pos as int,
        ser_instr(t@).subrange(1, ser_instr(t@).len() as int),
    );
    proof {
        if pre {
            lemma_instr_first(t@);
        }
    }
    let i = match op {
        0xB0 => Instruction::AReturn,
        0xB1 => Instruction::Return,
        0xBE => Instruction::ArrayLength,
        0xBF => Instruction::AThrow,
        0xC2 => Instruction::MonitorEnter,
        0xC3 => Instruction::MonitorExit,
        0xB2 => Instruction::GetStatic(r.read_u16()?),
        0xB3 => Instruction::PutStatic(r.read_u16()?),
        0xB4 => Instruction::GetField(r.read_u16()?),
        0xB5 => Instruction::PutField(r.read_u16()?),
        0xB6 => Instruction::InvokeVirtual(r.read_u16()?),
        0xB7 => Instruction::InvokeSpecial(r.read_u16()?),
        0xB8 => Instruction::InvokeStatic(r.read_u16()?),
        0xBB => Instruction::New(r.read_u16()?),
        0xBD => Instruction::ANewArray(r.read_u16()?),
        0xC0 => Instruction::CheckCast(r.read_u16()?),
        0xC1 => Instruction::InstanceOf(r.read_u16()?),
        0xC6 => Instruction::IfNull(r.read_u16()?),
        0xC7 => Instruction::IfNonNull(r.read_u16()?),
        0xBC => {
            let v = r.read_u8()?;
            assert(seq![op] + old(r).span(*r) =~= seq![op, v]);
            Instruction::NewArray(v)
        },
        0xC8 => Instruction::GotoW(r.read_u32()?),
        0xC9 => Instruction::JsrW(r.read_u32()?),
        0xB9 => {
            let index = r.read_u16()?;
            let ghost m1 = *r;
            let count = r.read_u8()?;
            let ghost m2 = *r;
            let zero = r.read_u8()?;
            proof {
                if pre {
                    let rest = ser_instr(t@).subrange(1, ser_instr(t@).len() as int);
                    assert(rest =~= be_u16(t@->InvokeInterface_index) + seq![t@->InvokeInterface_count, 0u8]);
                    assert(m2.span(*r)[0] == r.data@[m2.pos as int]);
                    assert(rest[3] == old(r).data@.subrange(old(r).pos as int, old(r).pos + rest.len())[3]);
                }
            }
            if zero != 0 {
                return Err(JavaError::Malformed);
            }
            proof {
                lemma_span_split(r.data@, m1.pos as int, m2.pos as int, r.pos as int);
                lemma_span_split(r.data@, old(r).pos as int, m1.pos as int, r.pos as int);
                assert(seq![op] + old(r).span(*r) =~= seq![op] + be_u16(index) + seq![count, 0u8]);
            }
            Instruction::InvokeInterface { index, count }
        },
        0xBA => {
            let v = r.read_u16()?;
            let ghost m1 = *r;
            let z0 = r.read_u8()?;
            let ghost m2 = *r;
            let z1 = r.read_u8()?;
            proof {
                if pre {
                    let rest = ser_instr(t@).subrange(1, ser_instr(t@).len() as int);
                    assert(rest =~= be_u16(t@->InvokeDynamic_0) + seq![0u8, 0u8]);
                    assert(m2.span(*r)[0] == r.data@[m2.pos as int]);
                    assert(m1.span(m2)[0] == r.data@[m1.pos as int]);
                    assert(rest[2] == old(r).data@.subrange(old(r).pos as int, old(r).pos + rest.len())[2]);
                    assert(rest[3] == old(r).data@.subrange(old(r).pos as int, old(r).pos + rest.len())[3]);
                }
            }
            if z0 != 0 || z1 != 0 {
                return Err(JavaError::Malformed);
            }
            proof {
                lemma_span_split(r.data@, m1.pos as int, m2.pos as int, r.pos as int);
                lemma_span_split(r.data@, old(r).pos as int, m1.pos as int, r.pos as int);
                assert(seq![op] + old(r).span(*r) =~= seq![op] + be_u16(v) + seq![0u8, 0u8]);
            }
            Instruction::InvokeDynamic(v)
        },
        0xC5 => {
            let a = r.read_u16()?;
            let ghost m1 = *r;
            let b = r.read_u8()?;
            proof {
                lemma_span_split(r.data@, old(r).pos as int, m1.pos as int, r.pos as int);
                assert(seq![op] + old(r).span(*r) =~= seq![op] + be_u16(a) + seq![b]);
            }
            Instruction::MultiANewArray(a, b)
        },
        0xC4 => {
            let i = read_wide(r, t)?;
            assert(seq![op] =~= seq![0xC4u8]);
            i
        },
        _ => {
            return Err(JavaError::UnknownOpcode(op));
        },
    };
    proof {
        if old(r).pos == r.pos {
            assert(old(r).span(*r) =~= Seq::<u8>::empty());
            assert(seq![op] + old(r).span(*r) =~= seq![op]);
        }
    }
    Ok(i)
}

/// Reads one instruction whose opcode stands at `old(r).pos`. `canonical`
/// stays set exactly where the bytes read are the instruction's encoding.
/// Where the input offers the bytes of `t`, decodable at this offset, it
/// reads them.
pub fn read_instruction_as(r: &mut ByteReader, t: Ghost<Instruction>) -> (res: Result<Instruction, JavaError>)
    requires
        old(r).wf(),
    ensures
        old(r).moved_to(*final(r)),
        res matches Ok(i) ==> {
            &&& final(r).pos > old(r).pos
            &&& decoded_at(i, old(r).pos as int)
            &&& final(r).canonical == (old(r).canonical && old(r).span(*final(r)) == ser_instr(i))
            &&& reads_as(i, old(r).span(*final(r)))
        },
        res matches Err(JavaError::UnknownOpcode(x)) ==> old(r).pos < old(r).data@.len() && {
            let op = old(r).data@[old(r).pos as int];
            ||| x == op && op > 0xC9
            ||| op == 0xC4 && old(r).pos + 1 < old(r).data@.len() && x == old(r).data@[old(r).pos + 1] && !wide_target(x)
        },
        old(r).offers(ser_instr(t@)) && decodable_at(t@, old(r).pos as int) ==> (res is Ok && old(r).took(
            *final(r),
            ser_instr(t@),
        )),
{
    let ghost r0 = *r;
    let ghost whole = ser_instr(t@);
    let ghost pre = r0.offers(whole) && decodable_at(t@, r0.pos as int);
    proof {
        if pre {
            lemma_instr_first(t@);
            assert(whole =~= seq![whole[0]] + whole.subrange(1, whole.len() as int));
            lemma_starts_concat(r0.data@, r0.pos as int, seq![whole[0]], whole.subrange(1, whole.len() as int));
        }
    }
    let op = r.read_u8()?;
    assert(r0.span(*r)[0] == r0.data@[r0.pos as int]);
    proof {
        if pre {
            assert(r0.data@[r0.pos as int] == r0.data@.subrange(r0.pos as int, r0.pos + 1)[0]);
        }
    }
    let ghost r1 = *r;
    let i = if op < 0x80 {
        read_operands_low(r, op, t)?
    } else if op < 0xB0 {
        read_operands_mid(r, op, t)?
    } else {
        read_operands_high(r, op, t)?
    };
    proof {
        lemma_span_split(r.data@, r0.pos as int, r1.pos as int, r.pos as int);
        assert(r0.span(*r) =~= seq![op] + r1.span(*r));
    }
    Ok(i)
}

/// Reads one instruction whose opcode stands at `old(r).pos`. `canonical`
/// stays set exactly where the bytes read are the instruction's encoding.
pub fn read_instruction(r: &mut ByteReader) -> (res: Result<Instruction, JavaError>)
    requires
        old(r).wf(),
    ensures
        old(r).moved_to(*final(r)),
        res matches Ok(i) ==> {
            &&& final(r).pos > old(r).pos
            &&& decoded_at(i, old(r).pos as int)
            &&& final(r).canonical == (old(r).canonical && old(r).span(*final(r)) == ser_instr(i))
            &&& reads_as(i, old(r).span(*final(r)))
        },
        (exists|t: Instruction| old(r).offers(ser_instr(t)) && decodable_at(t, old(r).pos as int)) ==> (res is Ok
            && final(r).canonical),
{
    let ghost t = choose|t: Instruction| r.offers(ser_instr(t)) && decodable_at(t, r.pos as int);
    read_instruction_as(r, Ghost(t))
}

/// Writes a code array: its length as a `u32`, then every instruction. It
/// fails, writing nothing, where an instruction has no encoding or the code
/// is too long for its length field.
pub fn compile(out: &mut Vec<u8>, code: &Vec<Instruction>) -> (res: Result<(), JavaError>)
    ensures
        res is Ok <==> (forall|k: int| 0 <= k < code@.len() ==> encodable(#[trigger] code@[k]))
            && ser_code(code@).len() <= u32::MAX,
        res is Ok ==> final(out)@ == old(out)@ + ser_code_block(code@),
        res is Err ==> final(out)@ == old(out)@ && res == Err::<(), JavaError>(JavaError::Malformed),
{
    let mut k: usize = 0;
    while k < code.len()
        invariant
            k <= code@.len(),
            forall|j: int| 0 <= j < k ==> encodable(#[trigger] code@[j]),
        decreases code@.len() - k,
    {
        if !is_encodable(&code[k]) {
            return Err(JavaError::Malformed);
        }
        k = k + 1;
    }
    let mut body: Vec<u8> = Vec::new();
    let mut i: usize = 0;
    while i < code.len()
        invariant
            i <= code@.len(),
            forall|j: int| 0 <= j < code@.len() ==> encodable(#[trigger] code@[j]),
            body@ == ser_code(code@.take(i as int)),
        decreases code@.len() - i,
    {
        write_instruction(&mut body, &code[i]);
        proof {
            assert(code@.take(i + 1) =~= code@.take(i as int).push(code@[i as int]));
            lemma_ser_code_push(code@.take(i as int), code@[i as int]);
        }
        i = i + 1;
    }
    assert(code@.take(code@.len() as int) =~= code@);
    if body.len() > 0xFFFF_FFFF {
        return Err(JavaError::Malformed);
    }
    push_u32(out, body.len() as u32);
    push_bytes(out, body.as_slice());
    Ok(())
}


/// Where the instruction at slot `k` ends: at the next offset, or at `total`
/// for the last.
pub open spec fn slot_end(offsets: Seq<u32>, k: int, total: int) -> int {
    if k + 1 < offsets.len() {
        offsets[k + 1] as int
    } else {
        total
    }
}

/// The cursor offers the code array of `c`, decodable instruction by
/// instruction at its offsets.
pub open spec fn code_offered(r: ByteReader, c: Seq<Instruction>) -> bool {
    &&& r.offers(ser_code_block(c))
    &&& ser_code(c).len() <= u32::MAX
    &&& forall|k: int| 0 <= k < c.len() ==> decodable_at(#[trigger] c[k], pc_of(c, k))
}

/// `data` is the code of `c`, whose first `k` instructions take `pos` bytes.
#[verifier::opaque]
pub open spec fn code_progress(data: Seq<u8>, c: Seq<Instruction>, k: int, pos: int) -> bool {
    &&& data == ser_code(c)
    &&& 0 <= k <= c.len()
    &&& pos == ser_code(c.take(k)).len()
    &&& forall|j: int| 0 <= j < c.len() ==> decodable_at(#[trigger] c[j], pc_of(c, j))
}

proof fn lemma_ser_code_concat(a: Seq<Instruction>, b: Seq<Instruction>)
    ensures
        ser_code(a + b) == ser_code(a) + ser_code(b),
    decreases b.len(),
{
    if b.len() == 0 {
        assert(a + b =~= a);
        assert(ser_code(a) + ser_code(b) =~= ser_code(a));
    } else {
        lemma_ser_code_concat(a, b.drop_last());
        assert((a + b).drop_last() =~= a + b.drop_last());
    }
}

proof fn lemma_code_start(data: Seq<u8>, c: Seq<Instruction>)
    requires
        data == ser_code(c),
        forall|j: int| 0 <= j < c.len() ==> decodable_at(#[trigger] c[j], pc_of(c, j)),
    ensures
        code_progress(data, c, 0, 0),
{
    reveal(code_progress);
    assert(c.take(0) =~= Seq::<Instruction>::empty());
}

#[verifier::rlimit(100)]
#[verifier::spinoff_prover]
proof fn lemma_code_next(data: Seq<u8>, c: Seq<Instruction>, k: int, pos: int)
    requires
        code_progress(data, c, k, pos),
        pos < data.len(),
    ensures
        k < c.len(),
        starts_at(data, pos, ser_instr(c[k])),
        decodable_at(c[k], pos),
        code_progress(data, c, k + 1, pos + ser_instr(c[k]).len()),
{
    reveal(code_progress);
    if k == c.len() {
        assert(c.take(k) =~= c);
    }
    assert(decodable_at(c[k], pc_of(c, k)));
    lemma_ser_code_concat(c.take(k + 1), c.skip(k + 1));
    assert(c.take(k + 1) + c.skip(k + 1) =~= c);
    lemma_ser_code_push(c.take(k), c[k]);
    assert(c.take(k + 1) =~= c.take(k).push(c[k]));
    assert(data.subrange(0, data.len() as int) =~= data);
    lemma_starts_concat(data, 0, ser_code(c.take(k + 1)), ser_code(c.skip(k + 1)));
    lemma_starts_concat(data, 0, ser_code(c.take(k)), ser_instr(c[k]));
}

proof fn lemma_code_done(data: Seq<u8>, c: Seq<Instruction>, k: int, pos: int)
    requires
        code_progress(data, c, k, pos),
        pos == data.len(),
    ensures
        k == c.len(),
{
    reveal(code_progress);
    if k < c.len() {
        assert(decodable_at(c[k], pc_of(c, k)));
        lemma_instr_first(c[k]);
        lemma_ser_code_concat(c.take(k + 1), c.skip(k + 1));
        assert(c.take(k + 1) + c.skip(k + 1) =~= c);
        lemma_ser_code_push(c.take(k), c[k]);
        assert(c.take(k + 1) =~= c.take(k).push(c[k]));
    }
}

/// Reads a code array: a `u32` length, then instructions until that many
/// bytes are used; with each instruction comes the offset of its opcode from
/// the start of the array. Where the input offers a decodable code array, it
/// is read.
pub fn decompile_with_offsets(r: &mut ByteReader) -> (res: Result<(Vec<Instruction>, Vec<u32>), JavaError>)
    requires
        old(r).wf(),
    ensures
        old(r).moved_to(*final(r)),
        final(r).canonical ==> old(r).canonical,
        res matches Ok((code, offsets)) ==> {
            &&& offsets@.len() == code@.len()
            &&& forall|k: int| 0 <= k < code@.len() ==> encodable(#[trigger] code@[k])
            &&& forall|k: int| 0 <= k < code@.len() ==> decoded_at(#[trigger] code@[k], offsets@[k] as int)
            &&& code@.len() > 0 ==> offsets@[0] == 0
            &&& forall|k: int| 0 <= k < code@.len() ==> reads_as(
                #[trigger] code@[k],
                old(r).data@.subrange(old(r).pos + 4 + offsets@[k], old(r).pos + 4 + slot_end(offsets@, k, final(r).pos - old(r).pos - 4)),
            )
            &&& final(r).canonical ==> old(r).span(*final(r)) == ser_code_block(code@)
        },
        (exists|c: Seq<Instruction>| code_offered(*old(r), c)) ==> (res is Ok && final(r).canonical),
{
    let ghost c = choose|c: Seq<Instruction>| code_offered(*r, c);
    decompile_with_offsets_as(r, Ghost(c))
}

/// Reads a code array: a `u32` length, then instructions until that many
/// bytes are used; with each instruction comes the offset of its opcode from
/// the start of the array. Each switch carries the padding of that offset.
/// Where `canonical` stays set, the bytes read are the encoding of the
/// result; where the input offers the code array of `t`, it is read.
#[verifier::rlimit(100)]
#[verifier::spinoff_prover]
#[verifier::loop_isolation(false)]
fn decompile_with_offsets_as(r: &mut ByteReader, t: Ghost<Seq<Instruction>>) -> (res: Result<(Vec<Instruction>, Vec<u32>), JavaError>)
    requires
        old(r).wf(),
    ensures
        old(r).moved_to(*final(r)),
        final(r).canonical ==> old(r).canonical,
        res matches Ok((code, offsets)) ==> {
            &&& offsets@.len() == code@.len()
            &&& forall|k: int| 0 <= k < code@.len() ==> encodable(#[trigger] code@[k])
            &&& forall|k: int| 0 <= k < code@.len() ==> decoded_at(#[trigger] code@[k], offsets@[k] as int)
            &&& code@.len() > 0 ==> offsets@[0] == 0
            &&& forall|k: int| 0 <= k < code@.len() ==> reads_as(
                #[trigger] code@[k],
                old(r).data@.subrange(old(r).pos + 4 + offsets@[k], old(r).pos + 4 + slot_end(offsets@, k, final(r).pos - old(r).pos - 4)),
            )

            &&& forall|k: int| 0 < k < code@.len() ==> offsets@[k - 1] < #[trigger] offsets@[k]
            &&& final(r).canonical ==> old(r).span(*final(r)) == ser_code_block(code@)
            &&& final(r).canonical ==> ser_code(code@).len() <= u32::MAX
            &&& final(r).canonical ==> forall|k: int| 0 <= k < code@.len() ==> #[trigger] offsets@[k] == pc_of(code@, k)
        },
        code_offered(*old(r), t@) ==> (res is Ok && old(r).took(*final(r), ser_code_block(t@))),
{
    let ghost c = t@;
    let ghost pre = code_offered(*r, c);
    proof {
        if pre {
            lemma_starts_concat(r.data@, r.pos as int, be_u32(ser_code(c).len() as u32), ser_code(c));
        }
    }
    let ghost r0 = *r;
    let len = r.read_u32()?;
    let ghost r1 = *r;
    proof {
        if pre {
            assert(r0.span(r1) =~= r1.data@.subrange(r0.pos as int, r0.pos + 4));
            lemma_be_u32_injective(len, ser_code(c).len() as u32);
        }
    }
    let bytes = r.read_bytes(len as usize)?;
    proof {
        if pre {
            lemma_code_start(bytes@, c);
        }
    }
    let mut sub = ByteReader::new(bytes);
    let mut code: Vec<Instruction> = Vec::new();
    let mut offsets: Vec<u32> = Vec::new();
    while !sub.at_end()
        invariant
            sub.wf(),
            old(r).moved_to(*r),
            r.canonical == old(r).canonical,
            sub.data@ == r1.span(*r),
            sub.data@.len() == len,
            offsets@.len() == code@.len(),
            code@.len() > 0 ==> offsets@[0] == 0,
            code@.len() == 0 ==> sub.pos == 0,
            code@.len() > 0 ==> offsets@[code@.len() - 1] < sub.pos,
            forall|k: int| 0 <= k < code@.len() ==> encodable(#[trigger] code@[k]),
            forall|k: int| 0 <= k < code@.len() ==> decoded_at(#[trigger] code@[k], offsets@[k] as int),
            forall|k: int| 0 < k < code@.len() ==> offsets@[k - 1] < #[trigger] offsets@[k],
            sub.canonical ==> sub.data@.subrange(0, sub.pos as int) == ser_code(code@),
            sub.canonical ==> forall|k: int| 0 <= k < code@.len() ==> #[trigger] offsets@[k] == pc_of(code@, k),
            pre ==> sub.canonical && code_progress(sub.data@, c, code@.len() as int, sub.pos as int),
            forall|k: int| 0 <= k < code@.len() ==> reads_as(#[trigger] code@[k], sub.data@.subrange(offsets@[k] as int, slot_end(offsets@, k, sub.pos as int))),
            forall|k: int| 0 <= k < code@.len() ==> offsets@[k] <= #[trigger] slot_end(offsets@, k, sub.pos as int) <= sub.pos,
        decreases sub.remaining(),
    {
        let ghost before = sub;
        let ghost old_code = code@;
        let ghost old_offsets = offsets@;
        let pc = sub.pos as u32;
        proof {
            if pre {
                lemma_code_next(sub.data@, c, old_code.len() as int, sub.pos as int);
            }
        }
        let i = read_instruction_as(&mut sub, Ghost(c[old_code.len() as int]))?;
        proof {
            lemma_span_split(sub.data@, 0, before.pos as int, sub.pos as int);
            lemma_ser_code_push(old_code, i);
            assert(old_code.push(i).take(old_code.len() as int) =~= old_code);
            assert forall|k: int| 0 <= k < old_code.len() implies old_code.push(i).take(k) =~= old_code.take(k) by {}
        }
        let ghost old_offsets2 = offsets@;
        code.push(i);
        offsets.push(pc);
        proof {
            assert(before.span(sub) == sub.data@.subrange(before.pos as int, sub.pos as int));
            assert forall|k: int| 0 <= k < code@.len() implies reads_as(#[trigger] code@[k], sub.data@.subrange(offsets@[k] as int, slot_end(offsets@, k, sub.pos as int))) by {
                if k < old_code.len() {
                    assert(code@[k] == old_code[k]);
                    assert(offsets@[k] == old_offsets2[k]);
                    assert(slot_end(offsets@, k, sub.pos as int) == slot_end(old_offsets2, k, before.pos as int));
                }
            }
            assert forall|k: int| 0 <= k < code@.len() implies offsets@[k] <= #[trigger] slot_end(offsets@, k, sub.pos as int) <= sub.pos by {
                if k < old_code.len() {
                    assert(offsets@[k] == old_offsets2[k]);
                    assert(slot_end(offsets@, k, sub.pos as int) == slot_end(old_offsets2, k, before.pos as int));
                }
            }
        }
        proof {
            if sub.canonical {
                assert forall|k: int| 0 <= k < code@.len() implies #[trigger] offsets@[k] == pc_of(code@, k) by {
                    if k < old_code.len() {
                        assert(code@.take(k) =~= old_code.take(k));
                        assert(offsets@[k] == old_offsets[k]);
                    } else {
                        assert(code@.take(k) =~= old_code);
                    }
                }
            }
            assert forall|k: int| 0 <= k < code@.len() implies decoded_at(#[trigger] code@[k], offsets@[k] as int) by {
                if k < old_code.len() {
                    assert(code@[k] == old_code[k] && offsets@[k] == old_offsets[k]);
                }
            }
        }
    }
    proof {
        if pre {
            lemma_code_done(sub.data@, c, code@.len() as int, sub.pos as int);
        }
        assert(r1.pos == old(r).pos + 4);
        assert(sub.pos == sub.data@.len());
        assert forall|k: int| 0 <= k < code@.len() implies reads_as(
            #[trigger] code@[k],
            old(r).data@.subrange(old(r).pos + 4 + offsets@[k], old(r).pos + 4 + slot_end(offsets@, k, r.pos - old(r).pos - 4)),
        ) by {
            let x = offsets@[k] as int;
            let y = slot_end(offsets@, k, sub.pos as int);
            assert(reads_as(code@[k], sub.data@.subrange(x, y)));
            assert(slot_end(offsets@, k, r.pos - old(r).pos - 4) == y);
            assert(0 <= x <= y <= sub.data@.len());
            assert(sub.data@.subrange(x, y) =~= old(r).data@.subrange(old(r).pos + 4 + x, old(r).pos + 4 + y));
        }
    }
    if !sub.canonical {
        r.canonical = false;
    }
    proof {
        lemma_span_split(r.data@, r0.pos as int, r1.pos as int, r.pos as int);
        assert(sub.data@.subrange(0, sub.pos as int) =~= sub.data@);
    }
    Ok((code, offsets))
}

/// Reads a code array; where the input offers the code array of `t`, it
/// reads exactly its bytes.
pub fn decompile_as(r: &mut ByteReader, t: Ghost<Seq<Instruction>>) -> (res: Result<Vec<Instruction>, JavaError>)
    requires
        old(r).wf(),
    ensures
        old(r).moved_to(*final(r)),
        final(r).canonical ==> old(r).canonical,
        res matches Ok(code) ==> {
            &&& forall|k: int| 0 <= k < code@.len() ==> encodable(#[trigger] code@[k])
            &&& final(r).canonical ==> old(r).span(*final(r)) == ser_code_block(code@)
            &&& final(r).canonical ==> ser_code(code@).len() <= u32::MAX
        },
        code_offered(*old(r), t@) ==> (res is Ok && old(r).took(*final(r), ser_code_block(t@))),
{
    let (code, offsets) = decompile_with_offsets_as(r, t)?;
    Ok(code)
}

/// Reads a code array: a `u32` length, then instructions until that many
/// bytes are used. Where `canonical` stays set, the bytes read are the
/// encoding of the result and each switch carries the padding of its offset.
pub fn decompile(r: &mut ByteReader) -> (res: Result<Vec<Instruction>, JavaError>)
    requires
        old(r).wf(),
    ensures
        old(r).moved_to(*final(r)),
        final(r).canonical ==> old(r).canonical,
        res matches Ok(code) ==> {
            &&& forall|k: int| 0 <= k < code@.len() ==> encodable(#[trigger] code@[k])
            &&& final(r).canonical ==> old(r).span(*final(r)) == ser_code_block(code@)
            &&& final(r).canonical ==> ser_code(code@).len() <= u32::MAX
            &&& final(r).canonical ==> forall|k: int| 0 <= k < code@.len() ==> decoded_at(#[trigger] code@[k], pc_of(code@, k))
        },
        (exists|c: Seq<Instruction>| code_offered(*old(r), c)) ==> (res is Ok && final(r).canonical && exists|c: Seq<Instruction>|
            #![auto] code_offered(*old(r), c) && old(r).took(*final(r), ser_code_block(c))),
{
    let ghost c = choose|c: Seq<Instruction>| code_offered(*r, c);
    let (code, offsets) = decompile_with_offsets_as(r, Ghost(c))?;
    proof {
        if r.canonical {
            assert forall|k: int| 0 <= k < code@.len() implies decoded_at(#[trigger] code@[k], pc_of(code@, k)) by {
                assert(offsets@[k] == pc_of(code@, k));
            }
        }
    }
    Ok(code)
}

} // verus!
