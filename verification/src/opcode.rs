//! The instruction set: one byte names the operation of an instruction
//! word.

use vstd::prelude::*;

verus! {

/// Number of named operations; bytes from this value up are reserved.
pub const NAMED_OPCODES: u8 = 230u8;

/// An operation of the register machine.
#[derive(Clone, Copy, PartialEq, Eq, Structural, Debug)]
pub enum Opcode {
    Mov,
    LoadK,
    Add,
    GetPropIc,
    Call,
    Jmp,
    LoadI,
    JmpTrue,
    JmpFalse,
    SetPropIc,
    AddAccImm8,
    IncAcc,
    LoadThis,
    Load0,
    Load1,
    Eq,
    Lt,
    Lte,
    AddAcc,
    SubAcc,
    MulAcc,
    DivAcc,
    LoadNull,
    LoadTrue,
    LoadFalse,
    LoadGlobalIc,
    SetGlobalIc,
    Typeof,
    ToNum,
    ToStr,
    IsUndef,
    IsNull,
    SubAccImm8,
    MulAccImm8,
    DivAccImm8,
    AddStrAcc,
    AddI,
    SubI,
    MulI,
    DivI,
    ModI,
    Mod,
    Neg,
    Inc,
    Dec,
    AddStr,
    ToPrimitive,
    GetPropAcc,
    SetPropAcc,
    GetIdxFast,
    SetIdxFast,
    LoadArg,
    LoadAcc,
    StrictEq,
    StrictNeq,
    BitAnd,
    BitOr,
    BitXor,
    BitNot,
    Shl,
    Shr,
    Ushr,
    Pow,
    LogicalAnd,
    LogicalOr,
    NullishCoalesce,
    In,
    Instanceof,
    GetLengthIc,
    ArrayPushAcc,
    NewObj,
    NewArr,
    NewFunc,
    NewClass,
    GetProp,
    SetProp,
    GetIdxIc,
    SetIdxIc,
    GetGlobal,
    SetGlobal,
    GetUpval,
    SetUpval,
    GetScope,
    SetScope,
    ResolveScope,
    GetSuper,
    SetSuper,
    DeleteProp,
    HasProp,
    Keys,
    ForIn,
    IteratorNext,
    Spread,
    Destructure,
    CreateEnv,
    LoadName,
    StoreName,
    InitName,
    LoadClosure,
    NewThis,
    TypeofName,
    JmpEq,
    JmpNeq,
    JmpLt,
    JmpLte,
    LoopIncJmp,
    Switch,
    LoopHint,
    Ret,
    RetU,
    RetReg,
    TailCall,
    Construct,
    CallVar,
    Enter,
    Leave,
    Yield,
    Await,
    Throw,
    Try,
    EndTry,
    Catch,
    Finally,
    CallIc,
    CallIcVar,
    ProfileType,
    ProfileCall,
    ProfileRet,
    CheckType,
    CheckStruct,
    CheckIc,
    IcInit,
    IcUpdate,
    IcMiss,
    OsrEntry,
    ProfileHotLoop,
    OsrExit,
    JitHint,
    SafetyCheck,
    GetPropIcCall,
    IncJmpFalseLoop,
    LoadKAddAcc,
    AddMov,
    EqJmpTrue,
    GetPropAccCall,
    LoadKMulAcc,
    LtJmp,
    GetPropIcMov,
    GetPropAddImmSetPropIc,
    AddAccImm8Mov,
    CallIcSuper,
    LoadThisCall,
    EqJmpFalse,
    LoadKSubAcc,
    GetLengthIcCall,
    AddStrAccMov,
    IncAccJmp,
    GetPropChainAcc,
    TestJmpTrue,
    LoadArgCall,
    MulAccMov,
    LteJmpLoop,
    NewObjInitProp,
    ProfileHotCall,
    Call1SubI,
    JmpLteFalse,
    AssertValue,
    AssertOk,
    AssertEqual,
    AssertNotEqual,
    AssertDeepEqual,
    AssertNotDeepEqual,
    AssertStrictEqual,
    AssertNotStrictEqual,
    AssertDeepStrictEqual,
    AssertNotDeepStrictEqual,
    AssertThrows,
    AssertDoesNotThrow,
    AssertRejects,
    AssertDoesNotReject,
    AssertFail,
    AddI32,
    AddF64,
    SubI32,
    SubF64,
    MulI32,
    MulF64,
    RetIfLteI,
    AddAccReg,
    Call1Add,
    Call2Add,
    LoadKAdd,
    LoadKCmp,
    CmpJmp,
    GetPropCall,
    CallRet,
    AddI32Fast,
    AddF64Fast,
    SubI32Fast,
    MulI32Fast,
    EqI32Fast,
    LtI32Fast,
    JmpI32Fast,
    GetPropMono,
    CallMono,
    Call0,
    Call1,
    Call2,
    Call3,
    CallMethod1,
    CallMethod2,
    LoadAdd,
    LoadSub,
    LoadMul,
    LoadInc,
    LoadDec,
    LoadCmpEq,
    LoadCmpLt,
    LoadJfalse,
    LoadCmpEqJfalse,
    LoadCmpLtJfalse,
    LoadGetProp,
    LoadGetPropCmpEq,
    GetProp2Ic,
    GetProp3Ic,
    GetElem,
    SetElem,
    GetPropElem,
    CallMethodIc,
    CallMethod2Ic,
    /// A byte that names no operation.
    Reserved(u8),
}

/// The operation that a byte names.
pub open spec fn opcode_of_byte(b: u8) -> Opcode {
    match b {
        0 => Opcode::Mov,
        1 => Opcode::LoadK,
        2 => Opcode::Add,
        3 => Opcode::GetPropIc,
        4 => Opcode::Call,
        5 => Opcode::Jmp,
        6 => Opcode::LoadI,
        7 => Opcode::JmpTrue,
        8 => Opcode::JmpFalse,
        9 => Opcode::SetPropIc,
        10 => Opcode::AddAccImm8,
        11 => Opcode::IncAcc,
        12 => Opcode::LoadThis,
        13 => Opcode::Load0,
        14 => Opcode::Load1,
        15 => Opcode::Eq,
        16 => Opcode::Lt,
        17 => Opcode::Lte,
        18 => Opcode::AddAcc,
        19 => Opcode::SubAcc,
        20 => Opcode::MulAcc,
        21 => Opcode::DivAcc,
        22 => Opcode::LoadNull,
        23 => Opcode::LoadTrue,
        24 => Opcode::LoadFalse,
        25 => Opcode::LoadGlobalIc,
        26 => Opcode::SetGlobalIc,
        27 => Opcode::Typeof,
        28 => Opcode::ToNum,
        29 => Opcode::ToStr,
        30 => Opcode::IsUndef,
        31 => Opcode::IsNull,
        32 => Opcode::SubAccImm8,
        33 => Opcode::MulAccImm8,
        34 => Opcode::DivAccImm8,
        35 => Opcode::AddStrAcc,
        36 => Opcode::AddI,
        37 => Opcode::SubI,
        38 => Opcode::MulI,
        39 => Opcode::DivI,
        40 => Opcode::ModI,
        41 => Opcode::Mod,
        42 => Opcode::Neg,
        43 => Opcode::Inc,
        44 => Opcode::Dec,
        45 => Opcode::AddStr,
        46 => Opcode::ToPrimitive,
        47 => Opcode::GetPropAcc,
        48 => Opcode::SetPropAcc,
        49 => Opcode::GetIdxFast,
        50 => Opcode::SetIdxFast,
        51 => Opcode::LoadArg,
        52 => Opcode::LoadAcc,
        53 => Opcode::StrictEq,
        54 => Opcode::StrictNeq,
        55 => Opcode::BitAnd,
        56 => Opcode::BitOr,
        57 => Opcode::BitXor,
        58 => Opcode::BitNot,
        59 => Opcode::Shl,
        60 => Opcode::Shr,
        61 => Opcode::Ushr,
        62 => Opcode::Pow,
        63 => Opcode::LogicalAnd,
        64 => Opcode::LogicalOr,
        65 => Opcode::NullishCoalesce,
        66 => Opcode::In,
        67 => Opcode::Instanceof,
        68 => Opcode::GetLengthIc,
        69 => Opcode::ArrayPushAcc,
        70 => Opcode::NewObj,
        71 => Opcode::NewArr,
        72 => Opcode::NewFunc,
        73 => Opcode::NewClass,
        74 => Opcode::GetProp,
        75 => Opcode::SetProp,
        76 => Opcode::GetIdxIc,
        77 => Opcode::SetIdxIc,
        78 => Opcode::GetGlobal,
        79 => Opcode::SetGlobal,
        80 => Opcode::GetUpval,
        81 => Opcode::SetUpval,
        82 => Opcode::GetScope,
        83 => Opcode::SetScope,
        84 => Opcode::ResolveScope,
        85 => Opcode::GetSuper,
        86 => Opcode::SetSuper,
        87 => Opcode::DeleteProp,
        88 => Opcode::HasProp,
        89 => Opcode::Keys,
        90 => Opcode::ForIn,
        91 => Opcode::IteratorNext,
        92 => Opcode::Spread,
        93 => Opcode::Destructure,
        94 => Opcode::CreateEnv,
        95 => Opcode::LoadName,
        96 => Opcode::StoreName,
        97 => Opcode::InitName,
        98 => Opcode::LoadClosure,
        99 => Opcode::NewThis,
        100 => Opcode::TypeofName,
        101 => Opcode::JmpEq,
        102 => Opcode::JmpNeq,
        103 => Opcode::JmpLt,
        104 => Opcode::JmpLte,
        105 => Opcode::LoopIncJmp,
        106 => Opcode::Switch,
        107 => Opcode::LoopHint,
        108 => Opcode::Ret,
        109 => Opcode::RetU,
        110 => Opcode::RetReg,
        111 => Opcode::TailCall,
        112 => Opcode::Construct,
        113 => Opcode::CallVar,
        114 => Opcode::Enter,
        115 => Opcode::Leave,
        116 => Opcode::Yield,
        117 => Opcode::Await,
        118 => Opcode::Throw,
        119 => Opcode::Try,
        120 => Opcode::EndTry,
        121 => Opcode::Catch,
        122 => Opcode::Finally,
        123 => Opcode::CallIc,
        124 => Opcode::CallIcVar,
        125 => Opcode::ProfileType,
        126 => Opcode::ProfileCall,
        127 => Opcode::ProfileRet,
        128 => Opcode::CheckType,
        129 => Opcode::CheckStruct,
        130 => Opcode::CheckIc,
        131 => Opcode::IcInit,
        132 => Opcode::IcUpdate,
        133 => Opcode::IcMiss,
        134 => Opcode::OsrEntry,
        135 => Opcode::ProfileHotLoop,
        136 => Opcode::OsrExit,
        137 => Opcode::JitHint,
        138 => Opcode::SafetyCheck,
        139 => Opcode::GetPropIcCall,
        140 => Opcode::IncJmpFalseLoop,
        141 => Opcode::LoadKAddAcc,
        142 => Opcode::AddMov,
        143 => Opcode::EqJmpTrue,
        144 => Opcode::GetPropAccCall,
        145 => Opcode::LoadKMulAcc,
        146 => Opcode::LtJmp,
        147 => Opcode::GetPropIcMov,
        148 => Opcode::GetPropAddImmSetPropIc,
        149 => Opcode::AddAccImm8Mov,
        150 => Opcode::CallIcSuper,
        151 => Opcode::LoadThisCall,
        152 => Opcode::EqJmpFalse,
        153 => Opcode::LoadKSubAcc,
        154 => Opcode::GetLengthIcCall,
        155 => Opcode::AddStrAccMov,
        156 => Opcode::IncAccJmp,
        157 => Opcode::GetPropChainAcc,
        158 => Opcode::TestJmpTrue,
        159 => Opcode::LoadArgCall,
        160 => Opcode::MulAccMov,
        161 => Opcode::LteJmpLoop,
        162 => Opcode::NewObjInitProp,
        163 => Opcode::ProfileHotCall,
        164 => Opcode::Call1SubI,
        165 => Opcode::JmpLteFalse,
        166 => Opcode::AssertValue,
        167 => Opcode::AssertOk,
        168 => Opcode::AssertEqual,
        169 => Opcode::AssertNotEqual,
        170 => Opcode::AssertDeepEqual,
        171 => Opcode::AssertNotDeepEqual,
        172 => Opcode::AssertStrictEqual,
        173 => Opcode::AssertNotStrictEqual,
        174 => Opcode::AssertDeepStrictEqual,
        175 => Opcode::AssertNotDeepStrictEqual,
        176 => Opcode::AssertThrows,
        177 => Opcode::AssertDoesNotThrow,
        178 => Opcode::AssertRejects,
        179 => Opcode::AssertDoesNotReject,
        180 => Opcode::AssertFail,
        181 => Opcode::AddI32,
        182 => Opcode::AddF64,
        183 => Opcode::SubI32,
        184 => Opcode::SubF64,
        185 => Opcode::MulI32,
        186 => Opcode::MulF64,
        187 => Opcode::RetIfLteI,
        188 => Opcode::AddAccReg,
        189 => Opcode::Call1Add,
        190 => Opcode::Call2Add,
        191 => Opcode::LoadKAdd,
        192 => Opcode::LoadKCmp,
        193 => Opcode::CmpJmp,
        194 => Opcode::GetPropCall,
        195 => Opcode::CallRet,
        196 => Opcode::AddI32Fast,
        197 => Opcode::AddF64Fast,
        198 => Opcode::SubI32Fast,
        199 => Opcode::MulI32Fast,
        200 => Opcode::EqI32Fast,
        201 => Opcode::LtI32Fast,
        202 => Opcode::JmpI32Fast,
        203 => Opcode::GetPropMono,
        204 => Opcode::CallMono,
        205 => Opcode::Call0,
        206 => Opcode::Call1,
        207 => Opcode::Call2,
        208 => Opcode::Call3,
        209 => Opcode::CallMethod1,
        210 => Opcode::CallMethod2,
        211 => Opcode::LoadAdd,
        212 => Opcode::LoadSub,
        213 => Opcode::LoadMul,
        214 => Opcode::LoadInc,
        215 => Opcode::LoadDec,
        216 => Opcode::LoadCmpEq,
        217 => Opcode::LoadCmpLt,
        218 => Opcode::LoadJfalse,
        219 => Opcode::LoadCmpEqJfalse,
        220 => Opcode::LoadCmpLtJfalse,
        221 => Opcode::LoadGetProp,
        222 => Opcode::LoadGetPropCmpEq,
        223 => Opcode::GetProp2Ic,
        224 => Opcode::GetProp3Ic,
        225 => Opcode::GetElem,
        226 => Opcode::SetElem,
        227 => Opcode::GetPropElem,
        228 => Opcode::CallMethodIc,
        229 => Opcode::CallMethod2Ic,
        _ => Opcode::Reserved(b),
    }
}

/// The byte of an operation.
pub open spec fn byte_of_opcode(op: Opcode) -> u8 {
    match op {
        Opcode::Mov => 0,
        Opcode::LoadK => 1,
        Opcode::Add => 2,
        Opcode::GetPropIc => 3,
        Opcode::Call => 4,
        Opcode::Jmp => 5,
        Opcode::LoadI => 6,
        Opcode::JmpTrue => 7,
        Opcode::JmpFalse => 8,
        Opcode::SetPropIc => 9,
        Opcode::AddAccImm8 => 10,
        Opcode::IncAcc => 11,
        Opcode::LoadThis => 12,
        Opcode::Load0 => 13,
        Opcode::Load1 => 14,
        Opcode::Eq => 15,
        Opcode::Lt => 16,
        Opcode::Lte => 17,
        Opcode::AddAcc => 18,
        Opcode::SubAcc => 19,
        Opcode::MulAcc => 20,
        Opcode::DivAcc => 21,
        Opcode::LoadNull => 22,
        Opcode::LoadTrue => 23,
        Opcode::LoadFalse => 24,
        Opcode::LoadGlobalIc => 25,
        Opcode::SetGlobalIc => 26,
        Opcode::Typeof => 27,
        Opcode::ToNum => 28,
        Opcode::ToStr => 29,
        Opcode::IsUndef => 30,
        Opcode::IsNull => 31,
        Opcode::SubAccImm8 => 32,
        Opcode::MulAccImm8 => 33,
        Opcode::DivAccImm8 => 34,
        Opcode::AddStrAcc => 35,
        Opcode::AddI => 36,
        Opcode::SubI => 37,
        Opcode::MulI => 38,
        Opcode::DivI => 39,
        Opcode::ModI => 40,
        Opcode::Mod => 41,
        Opcode::Neg => 42,
        Opcode::Inc => 43,
        Opcode::Dec => 44,
        Opcode::AddStr => 45,
        Opcode::ToPrimitive => 46,
        Opcode::GetPropAcc => 47,
        Opcode::SetPropAcc => 48,
        Opcode::GetIdxFast => 49,
        Opcode::SetIdxFast => 50,
        Opcode::LoadArg => 51,
        Opcode::LoadAcc => 52,
        Opcode::StrictEq => 53,
        Opcode::StrictNeq => 54,
        Opcode::BitAnd => 55,
        Opcode::BitOr => 56,
        Opcode::BitXor => 57,
        Opcode::BitNot => 58,
        Opcode::Shl => 59,
        Opcode::Shr => 60,
        Opcode::Ushr => 61,
        Opcode::Pow => 62,
        Opcode::LogicalAnd => 63,
        Opcode::LogicalOr => 64,
        Opcode::NullishCoalesce => 65,
        Opcode::In => 66,
        Opcode::Instanceof => 67,
        Opcode::GetLengthIc => 68,
        Opcode::ArrayPushAcc => 69,
        Opcode::NewObj => 70,
        Opcode::NewArr => 71,
        Opcode::NewFunc => 72,
        Opcode::NewClass => 73,
        Opcode::GetProp => 74,
        Opcode::SetProp => 75,
        Opcode::GetIdxIc => 76,
        Opcode::SetIdxIc => 77,
        Opcode::GetGlobal => 78,
        Opcode::SetGlobal => 79,
        Opcode::GetUpval => 80,
        Opcode::SetUpval => 81,
        Opcode::GetScope => 82,
        Opcode::SetScope => 83,
        Opcode::ResolveScope => 84,
        Opcode::GetSuper => 85,
        Opcode::SetSuper => 86,
        Opcode::DeleteProp => 87,
        Opcode::HasProp => 88,
        Opcode::Keys => 89,
        Opcode::ForIn => 90,
        Opcode::IteratorNext => 91,
        Opcode::Spread => 92,
        Opcode::Destructure => 93,
        Opcode::CreateEnv => 94,
        Opcode::LoadName => 95,
        Opcode::StoreName => 96,
        Opcode::InitName => 97,
        Opcode::LoadClosure => 98,
        Opcode::NewThis => 99,
        Opcode::TypeofName => 100,
        Opcode::JmpEq => 101,
        Opcode::JmpNeq => 102,
        Opcode::JmpLt => 103,
        Opcode::JmpLte => 104,
        Opcode::LoopIncJmp => 105,
        Opcode::Switch => 106,
        Opcode::LoopHint => 107,
        Opcode::Ret => 108,
        Opcode::RetU => 109,
        Opcode::RetReg => 110,
        Opcode::TailCall => 111,
        Opcode::Construct => 112,
        Opcode::CallVar => 113,
        Opcode::Enter => 114,
        Opcode::Leave => 115,
        Opcode::Yield => 116,
        Opcode::Await => 117,
        Opcode::Throw => 118,
        Opcode::Try => 119,
        Opcode::EndTry => 120,
        Opcode::Catch => 121,
        Opcode::Finally => 122,
        Opcode::CallIc => 123,
        Opcode::CallIcVar => 124,
        Opcode::ProfileType => 125,
        Opcode::ProfileCall => 126,
        Opcode::ProfileRet => 127,
        Opcode::CheckType => 128,
        Opcode::CheckStruct => 129,
        Opcode::CheckIc => 130,
        Opcode::IcInit => 131,
        Opcode::IcUpdate => 132,
        Opcode::IcMiss => 133,
        Opcode::OsrEntry => 134,
        Opcode::ProfileHotLoop => 135,
        Opcode::OsrExit => 136,
        Opcode::JitHint => 137,
        Opcode::SafetyCheck => 138,
        Opcode::GetPropIcCall => 139,
        Opcode::IncJmpFalseLoop => 140,
        Opcode::LoadKAddAcc => 141,
        Opcode::AddMov => 142,
        Opcode::EqJmpTrue => 143,
        Opcode::GetPropAccCall => 144,
        Opcode::LoadKMulAcc => 145,
        Opcode::LtJmp => 146,
        Opcode::GetPropIcMov => 147,
        Opcode::GetPropAddImmSetPropIc => 148,
        Opcode::AddAccImm8Mov => 149,
        Opcode::CallIcSuper => 150,
        Opcode::LoadThisCall => 151,
        Opcode::EqJmpFalse => 152,
        Opcode::LoadKSubAcc => 153,
        Opcode::GetLengthIcCall => 154,
        Opcode::AddStrAccMov => 155,
        Opcode::IncAccJmp => 156,
        Opcode::GetPropChainAcc => 157,
        Opcode::TestJmpTrue => 158,
        Opcode::LoadArgCall => 159,
        Opcode::MulAccMov => 160,
        Opcode::LteJmpLoop => 161,
        Opcode::NewObjInitProp => 162,
        Opcode::ProfileHotCall => 163,
        Opcode::Call1SubI => 164,
        Opcode::JmpLteFalse => 165,
        Opcode::AssertValue => 166,
        Opcode::AssertOk => 167,
        Opcode::AssertEqual => 168,
        Opcode::AssertNotEqual => 169,
        Opcode::AssertDeepEqual => 170,
        Opcode::AssertNotDeepEqual => 171,
        Opcode::AssertStrictEqual => 172,
        Opcode::AssertNotStrictEqual => 173,
        Opcode::AssertDeepStrictEqual => 174,
        Opcode::AssertNotDeepStrictEqual => 175,
        Opcode::AssertThrows => 176,
        Opcode::AssertDoesNotThrow => 177,
        Opcode::AssertRejects => 178,
        Opcode::AssertDoesNotReject => 179,
        Opcode::AssertFail => 180,
        Opcode::AddI32 => 181,
        Opcode::AddF64 => 182,
        Opcode::SubI32 => 183,
        Opcode::SubF64 => 184,
        Opcode::MulI32 => 185,
        Opcode::MulF64 => 186,
        Opcode::RetIfLteI => 187,
        Opcode::AddAccReg => 188,
        Opcode::Call1Add => 189,
        Opcode::Call2Add => 190,
        Opcode::LoadKAdd => 191,
        Opcode::LoadKCmp => 192,
        Opcode::CmpJmp => 193,
        Opcode::GetPropCall => 194,
        Opcode::CallRet => 195,
        Opcode::AddI32Fast => 196,
        Opcode::AddF64Fast => 197,
        Opcode::SubI32Fast => 198,
        Opcode::MulI32Fast => 199,
        Opcode::EqI32Fast => 200,
        Opcode::LtI32Fast => 201,
        Opcode::JmpI32Fast => 202,
        Opcode::GetPropMono => 203,
        Opcode::CallMono => 204,
        Opcode::Call0 => 205,
        Opcode::Call1 => 206,
        Opcode::Call2 => 207,
        Opcode::Call3 => 208,
        Opcode::CallMethod1 => 209,
        Opcode::CallMethod2 => 210,
        Opcode::LoadAdd => 211,
        Opcode::LoadSub => 212,
        Opcode::LoadMul => 213,
        Opcode::LoadInc => 214,
        Opcode::LoadDec => 215,
        Opcode::LoadCmpEq => 216,
        Opcode::LoadCmpLt => 217,
        Opcode::LoadJfalse => 218,
        Opcode::LoadCmpEqJfalse => 219,
        Opcode::LoadCmpLtJfalse => 220,
        Opcode::LoadGetProp => 221,
        Opcode::LoadGetPropCmpEq => 222,
        Opcode::GetProp2Ic => 223,
        Opcode::GetProp3Ic => 224,
        Opcode::GetElem => 225,
        Opcode::SetElem => 226,
        Opcode::GetPropElem => 227,
        Opcode::CallMethodIc => 228,
        Opcode::CallMethod2Ic => 229,
        Opcode::Reserved(n) => n,
    }
}

impl Opcode {
    /// The operation that a byte names.
    pub fn from_u8(b: u8) -> (r: Opcode)
        ensures
            r == opcode_of_byte(b),
    {
        match b {
            0 => Opcode::Mov,
            1 => Opcode::LoadK,
            2 => Opcode::Add,
            3 => Opcode::GetPropIc,
            4 => Opcode::Call,
            5 => Opcode::Jmp,
            6 => Opcode::LoadI,
            7 => Opcode::JmpTrue,
            8 => Opcode::JmpFalse,
            9 => Opcode::SetPropIc,
            10 => Opcode::AddAccImm8,
            11 => Opcode::IncAcc,
            12 => Opcode::LoadThis,
            13 => Opcode::Load0,
            14 => Opcode::Load1,
            15 => Opcode::Eq,
            16 => Opcode::Lt,
            17 => Opcode::Lte,
            18 => Opcode::AddAcc,
            19 => Opcode::SubAcc,
            20 => Opcode::MulAcc,
            21 => Opcode::DivAcc,
            22 => Opcode::LoadNull,
            23 => Opcode::LoadTrue,
            24 => Opcode::LoadFalse,
            25 => Opcode::LoadGlobalIc,
            26 => Opcode::SetGlobalIc,
            27 => Opcode::Typeof,
            28 => Opcode::ToNum,
            29 => Opcode::ToStr,
            30 => Opcode::IsUndef,
            31 => Opcode::IsNull,
            32 => Opcode::SubAccImm8,
            33 => Opcode::MulAccImm8,
            34 => Opcode::DivAccImm8,
            35 => Opcode::AddStrAcc,
            36 => Opcode::AddI,
            37 => Opcode::SubI,
            38 => Opcode::MulI,
            39 => Opcode::DivI,
            40 => Opcode::ModI,
            41 => Opcode::Mod,
            42 => Opcode::Neg,
            43 => Opcode::Inc,
            44 => Opcode::Dec,
            45 => Opcode::AddStr,
            46 => Opcode::ToPrimitive,
            47 => Opcode::GetPropAcc,
            48 => Opcode::SetPropAcc,
            49 => Opcode::GetIdxFast,
            50 => Opcode::SetIdxFast,
            51 => Opcode::LoadArg,
            52 => Opcode::LoadAcc,
            53 => Opcode::StrictEq,
            54 => Opcode::StrictNeq,
            55 => Opcode::BitAnd,
            56 => Opcode::BitOr,
            57 => Opcode::BitXor,
            58 => Opcode::BitNot,
            59 => Opcode::Shl,
            60 => Opcode::Shr,
            61 => Opcode::Ushr,
            62 => Opcode::Pow,
            63 => Opcode::LogicalAnd,
            64 => Opcode::LogicalOr,
            65 => Opcode::NullishCoalesce,
            66 => Opcode::In,
            67 => Opcode::Instanceof,
            68 => Opcode::GetLengthIc,
            69 => Opcode::ArrayPushAcc,
            70 => Opcode::NewObj,
            71 => Opcode::NewArr,
            72 => Opcode::NewFunc,
            73 => Opcode::NewClass,
            74 => Opcode::GetProp,
            75 => Opcode::SetProp,
            76 => Opcode::GetIdxIc,
            77 => Opcode::SetIdxIc,
            78 => Opcode::GetGlobal,
            79 => Opcode::SetGlobal,
            80 => Opcode::GetUpval,
            81 => Opcode::SetUpval,
            82 => Opcode::GetScope,
            83 => Opcode::SetScope,
            84 => Opcode::ResolveScope,
            85 => Opcode::GetSuper,
            86 => Opcode::SetSuper,
            87 => Opcode::DeleteProp,
            88 => Opcode::HasProp,
            89 => Opcode::Keys,
            90 => Opcode::ForIn,
            91 => Opcode::IteratorNext,
            92 => Opcode::Spread,
            93 => Opcode::Destructure,
            94 => Opcode::CreateEnv,
            95 => Opcode::LoadName,
            96 => Opcode::StoreName,
            97 => Opcode::InitName,
            98 => Opcode::LoadClosure,
            99 => Opcode::NewThis,
            100 => Opcode::TypeofName,
            101 => Opcode::JmpEq,
            102 => Opcode::JmpNeq,
            103 => Opcode::JmpLt,
            104 => Opcode::JmpLte,
            105 => Opcode::LoopIncJmp,
            106 => Opcode::Switch,
            107 => Opcode::LoopHint,
            108 => Opcode::Ret,
            109 => Opcode::RetU,
            110 => Opcode::RetReg,
            111 => Opcode::TailCall,
            112 => Opcode::Construct,
            113 => Opcode::CallVar,
            114 => Opcode::Enter,
            115 => Opcode::Leave,
            116 => Opcode::Yield,
            117 => Opcode::Await,
            118 => Opcode::Throw,
            119 => Opcode::Try,
            120 => Opcode::EndTry,
            121 => Opcode::Catch,
            122 => Opcode::Finally,
            123 => Opcode::CallIc,
            124 => Opcode::CallIcVar,
            125 => Opcode::ProfileType,
            126 => Opcode::ProfileCall,
            127 => Opcode::ProfileRet,
            128 => Opcode::CheckType,
            129 => Opcode::CheckStruct,
            130 => Opcode::CheckIc,
            131 => Opcode::IcInit,
            132 => Opcode::IcUpdate,
            133 => Opcode::IcMiss,
            134 => Opcode::OsrEntry,
            135 => Opcode::ProfileHotLoop,
            136 => Opcode::OsrExit,
            137 => Opcode::JitHint,
            138 => Opcode::SafetyCheck,
            139 => Opcode::GetPropIcCall,
            140 => Opcode::IncJmpFalseLoop,
            141 => Opcode::LoadKAddAcc,
            142 => Opcode::AddMov,
            143 => Opcode::EqJmpTrue,
            144 => Opcode::GetPropAccCall,
            145 => Opcode::LoadKMulAcc,
            146 => Opcode::LtJmp,
            147 => Opcode::GetPropIcMov,
            148 => Opcode::GetPropAddImmSetPropIc,
            149 => Opcode::AddAccImm8Mov,
            150 => Opcode::CallIcSuper,
            151 => Opcode::LoadThisCall,
            152 => Opcode::EqJmpFalse,
            153 => Opcode::LoadKSubAcc,
            154 => Opcode::GetLengthIcCall,
            155 => Opcode::AddStrAccMov,
            156 => Opcode::IncAccJmp,
            157 => Opcode::GetPropChainAcc,
            158 => Opcode::TestJmpTrue,
            159 => Opcode::LoadArgCall,
            160 => Opcode::MulAccMov,
            161 => Opcode::LteJmpLoop,
            162 => Opcode::NewObjInitProp,
            163 => Opcode::ProfileHotCall,
            164 => Opcode::Call1SubI,
            165 => Opcode::JmpLteFalse,
            166 => Opcode::AssertValue,
            167 => Opcode::AssertOk,
            168 => Opcode::AssertEqual,
            169 => Opcode::AssertNotEqual,
            170 => Opcode::AssertDeepEqual,
            171 => Opcode::AssertNotDeepEqual,
            172 => Opcode::AssertStrictEqual,
            173 => Opcode::AssertNotStrictEqual,
            174 => Opcode::AssertDeepStrictEqual,
            175 => Opcode::AssertNotDeepStrictEqual,
            176 => Opcode::AssertThrows,
            177 => Opcode::AssertDoesNotThrow,
            178 => Opcode::AssertRejects,
            179 => Opcode::AssertDoesNotReject,
            180 => Opcode::AssertFail,
            181 => Opcode::AddI32,
            182 => Opcode::AddF64,
            183 => Opcode::SubI32,
            184 => Opcode::SubF64,
            185 => Opcode::MulI32,
            186 => Opcode::MulF64,
            187 => Opcode::RetIfLteI,
            188 => Opcode::AddAccReg,
            189 => Opcode::Call1Add,
            190 => Opcode::Call2Add,
            191 => Opcode::LoadKAdd,
            192 => Opcode::LoadKCmp,
            193 => Opcode::CmpJmp,
            194 => Opcode::GetPropCall,
            195 => Opcode::CallRet,
            196 => Opcode::AddI32Fast,
            197 => Opcode::AddF64Fast,
            198 => Opcode::SubI32Fast,
            199 => Opcode::MulI32Fast,
            200 => Opcode::EqI32Fast,
            201 => Opcode::LtI32Fast,
            202 => Opcode::JmpI32Fast,
            203 => Opcode::GetPropMono,
            204 => Opcode::CallMono,
            205 => Opcode::Call0,
            206 => Opcode::Call1,
            207 => Opcode::Call2,
            208 => Opcode::Call3,
            209 => Opcode::CallMethod1,
            210 => Opcode::CallMethod2,
            211 => Opcode::LoadAdd,
            212 => Opcode::LoadSub,
            213 => Opcode::LoadMul,
            214 => Opcode::LoadInc,
            215 => Opcode::LoadDec,
            216 => Opcode::LoadCmpEq,
            217 => Opcode::LoadCmpLt,
            218 => Opcode::LoadJfalse,
            219 => Opcode::LoadCmpEqJfalse,
            220 => Opcode::LoadCmpLtJfalse,
            221 => Opcode::LoadGetProp,
            222 => Opcode::LoadGetPropCmpEq,
            223 => Opcode::GetProp2Ic,
            224 => Opcode::GetProp3Ic,
            225 => Opcode::GetElem,
            226 => Opcode::SetElem,
            227 => Opcode::GetPropElem,
            228 => Opcode::CallMethodIc,
            229 => Opcode::CallMethod2Ic,
            _ => Opcode::Reserved(b),
        }
    }

    /// The byte of the operation.
    pub fn as_u8(self) -> (r: u8)
        ensures
            r == byte_of_opcode(self),
    {
        match self {
            Opcode::Mov => 0,
            Opcode::LoadK => 1,
            Opcode::Add => 2,
            Opcode::GetPropIc => 3,
            Opcode::Call => 4,
            Opcode::Jmp => 5,
            Opcode::LoadI => 6,
            Opcode::JmpTrue => 7,
            Opcode::JmpFalse => 8,
            Opcode::SetPropIc => 9,
            Opcode::AddAccImm8 => 10,
            Opcode::IncAcc => 11,
            Opcode::LoadThis => 12,
            Opcode::Load0 => 13,
            Opcode::Load1 => 14,
            Opcode::Eq => 15,
            Opcode::Lt => 16,
            Opcode::Lte => 17,
            Opcode::AddAcc => 18,
            Opcode::SubAcc => 19,
            Opcode::MulAcc => 20,
            Opcode::DivAcc => 21,
            Opcode::LoadNull => 22,
            Opcode::LoadTrue => 23,
            Opcode::LoadFalse => 24,
            Opcode::LoadGlobalIc => 25,
            Opcode::SetGlobalIc => 26,
            Opcode::Typeof => 27,
            Opcode::ToNum => 28,
            Opcode::ToStr => 29,
            Opcode::IsUndef => 30,
            Opcode::IsNull => 31,
            Opcode::SubAccImm8 => 32,
            Opcode::MulAccImm8 => 33,
            Opcode::DivAccImm8 => 34,
            Opcode::AddStrAcc => 35,
            Opcode::AddI => 36,
            Opcode::SubI => 37,
            Opcode::MulI => 38,
            Opcode::DivI => 39,
            Opcode::ModI => 40,
            Opcode::Mod => 41,
            Opcode::Neg => 42,
            Opcode::Inc => 43,
            Opcode::Dec => 44,
            Opcode::AddStr => 45,
            Opcode::ToPrimitive => 46,
            Opcode::GetPropAcc => 47,
            Opcode::SetPropAcc => 48,
            Opcode::GetIdxFast => 49,
            Opcode::SetIdxFast => 50,
            Opcode::LoadArg => 51,
            Opcode::LoadAcc => 52,
            Opcode::StrictEq => 53,
            Opcode::StrictNeq => 54,
            Opcode::BitAnd => 55,
            Opcode::BitOr => 56,
            Opcode::BitXor => 57,
            Opcode::BitNot => 58,
            Opcode::Shl => 59,
            Opcode::Shr => 60,
            Opcode::Ushr => 61,
            Opcode::Pow => 62,
            Opcode::LogicalAnd => 63,
            Opcode::LogicalOr => 64,
            Opcode::NullishCoalesce => 65,
            Opcode::In => 66,
            Opcode::Instanceof => 67,
            Opcode::GetLengthIc => 68,
            Opcode::ArrayPushAcc => 69,
            Opcode::NewObj => 70,
            Opcode::NewArr => 71,
            Opcode::NewFunc => 72,
            Opcode::NewClass => 73,
            Opcode::GetProp => 74,
            Opcode::SetProp => 75,
            Opcode::GetIdxIc => 76,
            Opcode::SetIdxIc => 77,
            Opcode::GetGlobal => 78,
            Opcode::SetGlobal => 79,
            Opcode::GetUpval => 80,
            Opcode::SetUpval => 81,
            Opcode::GetScope => 82,
            Opcode::SetScope => 83,
            Opcode::ResolveScope => 84,
            Opcode::GetSuper => 85,
            Opcode::SetSuper => 86,
            Opcode::DeleteProp => 87,
            Opcode::HasProp => 88,
            Opcode::Keys => 89,
            Opcode::ForIn => 90,
            Opcode::IteratorNext => 91,
            Opcode::Spread => 92,
            Opcode::Destructure => 93,
            Opcode::CreateEnv => 94,
            Opcode::LoadName => 95,
            Opcode::StoreName => 96,
            Opcode::InitName => 97,
            Opcode::LoadClosure => 98,
            Opcode::NewThis => 99,
            Opcode::TypeofName => 100,
            Opcode::JmpEq => 101,
            Opcode::JmpNeq => 102,
            Opcode::JmpLt => 103,
            Opcode::JmpLte => 104,
            Opcode::LoopIncJmp => 105,
            Opcode::Switch => 106,
            Opcode::LoopHint => 107,
            Opcode::Ret => 108,
            Opcode::RetU => 109,
            Opcode::RetReg => 110,
            Opcode::TailCall => 111,
            Opcode::Construct => 112,
            Opcode::CallVar => 113,
            Opcode::Enter => 114,
            Opcode::Leave => 115,
            Opcode::Yield => 116,
            Opcode::Await => 117,
            Opcode::Throw => 118,
            Opcode::Try => 119,
            Opcode::EndTry => 120,
            Opcode::Catch => 121,
            Opcode::Finally => 122,
            Opcode::CallIc => 123,
            Opcode::CallIcVar => 124,
            Opcode::ProfileType => 125,
            Opcode::ProfileCall => 126,
            Opcode::ProfileRet => 127,
            Opcode::CheckType => 128,
            Opcode::CheckStruct => 129,
            Opcode::CheckIc => 130,
            Opcode::IcInit => 131,
            Opcode::IcUpdate => 132,
            Opcode::IcMiss => 133,
            Opcode::OsrEntry => 134,
            Opcode::ProfileHotLoop => 135,
            Opcode::OsrExit => 136,
            Opcode::JitHint => 137,
            Opcode::SafetyCheck => 138,
            Opcode::GetPropIcCall => 139,
            Opcode::IncJmpFalseLoop => 140,
            Opcode::LoadKAddAcc => 141,
            Opcode::AddMov => 142,
            Opcode::EqJmpTrue => 143,
            Opcode::GetPropAccCall => 144,
            Opcode::LoadKMulAcc => 145,
            Opcode::LtJmp => 146,
            Opcode::GetPropIcMov => 147,
            Opcode::GetPropAddImmSetPropIc => 148,
            Opcode::AddAccImm8Mov => 149,
            Opcode::CallIcSuper => 150,
            Opcode::LoadThisCall => 151,
            Opcode::EqJmpFalse => 152,
            Opcode::LoadKSubAcc => 153,
            Opcode::GetLengthIcCall => 154,
            Opcode::AddStrAccMov => 155,
            Opcode::IncAccJmp => 156,
            Opcode::GetPropChainAcc => 157,
            Opcode::TestJmpTrue => 158,
            Opcode::LoadArgCall => 159,
            Opcode::MulAccMov => 160,
            Opcode::LteJmpLoop => 161,
            Opcode::NewObjInitProp => 162,
            Opcode::ProfileHotCall => 163,
            Opcode::Call1SubI => 164,
            Opcode::JmpLteFalse => 165,
            Opcode::AssertValue => 166,
            Opcode::AssertOk => 167,
            Opcode::AssertEqual => 168,
            Opcode::AssertNotEqual => 169,
            Opcode::AssertDeepEqual => 170,
            Opcode::AssertNotDeepEqual => 171,
            Opcode::AssertStrictEqual => 172,
            Opcode::AssertNotStrictEqual => 173,
            Opcode::AssertDeepStrictEqual => 174,
            Opcode::AssertNotDeepStrictEqual => 175,
            Opcode::AssertThrows => 176,
            Opcode::AssertDoesNotThrow => 177,
            Opcode::AssertRejects => 178,
            Opcode::AssertDoesNotReject => 179,
            Opcode::AssertFail => 180,
            Opcode::AddI32 => 181,
            Opcode::AddF64 => 182,
            Opcode::SubI32 => 183,
            Opcode::SubF64 => 184,
            Opcode::MulI32 => 185,
            Opcode::MulF64 => 186,
            Opcode::RetIfLteI => 187,
            Opcode::AddAccReg => 188,
            Opcode::Call1Add => 189,
            Opcode::Call2Add => 190,
            Opcode::LoadKAdd => 191,
            Opcode::LoadKCmp => 192,
            Opcode::CmpJmp => 193,
            Opcode::GetPropCall => 194,
            Opcode::CallRet => 195,
            Opcode::AddI32Fast => 196,
            Opcode::AddF64Fast => 197,
            Opcode::SubI32Fast => 198,
            Opcode::MulI32Fast => 199,
            Opcode::EqI32Fast => 200,
            Opcode::LtI32Fast => 201,
            Opcode::JmpI32Fast => 202,
            Opcode::GetPropMono => 203,
            Opcode::CallMono => 204,
            Opcode::Call0 => 205,
            Opcode::Call1 => 206,
            Opcode::Call2 => 207,
            Opcode::Call3 => 208,
            Opcode::CallMethod1 => 209,
            Opcode::CallMethod2 => 210,
            Opcode::LoadAdd => 211,
            Opcode::LoadSub => 212,
            Opcode::LoadMul => 213,
            Opcode::LoadInc => 214,
            Opcode::LoadDec => 215,
            Opcode::LoadCmpEq => 216,
            Opcode::LoadCmpLt => 217,
            Opcode::LoadJfalse => 218,
            Opcode::LoadCmpEqJfalse => 219,
            Opcode::LoadCmpLtJfalse => 220,
            Opcode::LoadGetProp => 221,
            Opcode::LoadGetPropCmpEq => 222,
            Opcode::GetProp2Ic => 223,
            Opcode::GetProp3Ic => 224,
            Opcode::GetElem => 225,
            Opcode::SetElem => 226,
            Opcode::GetPropElem => 227,
            Opcode::CallMethodIc => 228,
            Opcode::CallMethod2Ic => 229,
            Opcode::Reserved(n) => n,
        }
    }
}

/// Reading a byte as an operation and writing the operation back gives the
/// byte.
pub proof fn law_byte_roundtrip(b: u8)
    ensures
        byte_of_opcode(opcode_of_byte(b)) == b,
{
}

/// A named operation survives writing it as a byte and reading it back.
pub proof fn law_opcode_roundtrip(op: Opcode)
    requires
        !(op is Reserved) || op->Reserved_0 >= NAMED_OPCODES,
    ensures
        opcode_of_byte(byte_of_opcode(op)) == op,
{
}

} // verus!
