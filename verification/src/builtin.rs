//! The builtin opcodes: the single source of truth for arity, force arity
//! and the position of each builtin in the cost table.

use vstd::prelude::*;

verus! {

#[derive(Clone, Copy, PartialEq, Eq, Structural, Debug)]
#[allow(non_camel_case_types)]
pub enum DefaultFunction {
    AddInteger,
    SubtractInteger,
    MultiplyInteger,
    DivideInteger,
    QuotientInteger,
    RemainderInteger,
    ModInteger,
    EqualsInteger,
    LessThanInteger,
    LessThanEqualsInteger,
    AppendByteString,
    ConsByteString,
    SliceByteString,
    LengthOfByteString,
    IndexByteString,
    EqualsByteString,
    LessThanByteString,
    LessThanEqualsByteString,
    Sha2_256,
    Sha3_256,
    Blake2b_224,
    Blake2b_256,
    Keccak_256,
    Ripemd_160,
    VerifyEd25519Signature,
    VerifyEcdsaSecp256k1Signature,
    VerifySchnorrSecp256k1Signature,
    AppendString,
    EqualsString,
    EncodeUtf8,
    DecodeUtf8,
    IfThenElse,
    ChooseUnit,
    Trace,
    FstPair,
    SndPair,
    ChooseList,
    MkCons,
    HeadList,
    TailList,
    NullList,
    ChooseData,
    ConstrData,
    MapData,
    ListData,
    IData,
    BData,
    UnConstrData,
    UnMapData,
    UnListData,
    UnIData,
    UnBData,
    EqualsData,
    SerialiseData,
    MkPairData,
    MkNilData,
    MkNilPairData,
    Bls12_381_G1_Add,
    Bls12_381_G1_Neg,
    Bls12_381_G1_ScalarMul,
    Bls12_381_G1_Equal,
    Bls12_381_G1_Compress,
    Bls12_381_G1_Uncompress,
    Bls12_381_G1_HashToGroup,
    Bls12_381_G2_Add,
    Bls12_381_G2_Neg,
    Bls12_381_G2_ScalarMul,
    Bls12_381_G2_Equal,
    Bls12_381_G2_Compress,
    Bls12_381_G2_Uncompress,
    Bls12_381_G2_HashToGroup,
    Bls12_381_MillerLoop,
    Bls12_381_MulMlResult,
    Bls12_381_FinalVerify,
    IntegerToByteString,
    ByteStringToInteger,
    AndByteString,
    OrByteString,
    XorByteString,
    ComplementByteString,
    ReadBit,
    WriteBits,
    ReplicateByte,
    ShiftByteString,
    RotateByteString,
    CountSetBits,
    FindFirstSetBit,
}

pub const BUILTIN_COUNT: usize = 87;

impl DefaultFunction {
    /// (argument arity, required forces, cost-table position).
    pub open spec fn spec_sig(self) -> (nat, nat, nat) {
        match self {
            DefaultFunction::AddInteger => (2, 0, 0),
            DefaultFunction::SubtractInteger => (2, 0, 1),
            DefaultFunction::MultiplyInteger => (2, 0, 2),
            DefaultFunction::DivideInteger => (2, 0, 3),
            DefaultFunction::QuotientInteger => (2, 0, 4),
            DefaultFunction::RemainderInteger => (2, 0, 5),
            DefaultFunction::ModInteger => (2, 0, 6),
            DefaultFunction::EqualsInteger => (2, 0, 7),
            DefaultFunction::LessThanInteger => (2, 0, 8),
            DefaultFunction::LessThanEqualsInteger => (2, 0, 9),
            DefaultFunction::AppendByteString => (2, 0, 10),
            DefaultFunction::ConsByteString => (2, 0, 11),
            DefaultFunction::SliceByteString => (3, 0, 12),
            DefaultFunction::LengthOfByteString => (1, 0, 13),
            DefaultFunction::IndexByteString => (2, 0, 14),
            DefaultFunction::EqualsByteString => (2, 0, 15),
            DefaultFunction::LessThanByteString => (2, 0, 16),
            DefaultFunction::LessThanEqualsByteString => (2, 0, 17),
            DefaultFunction::Sha2_256 => (1, 0, 18),
            DefaultFunction::Sha3_256 => (1, 0, 19),
            DefaultFunction::Blake2b_224 => (1, 0, 20),
            DefaultFunction::Blake2b_256 => (1, 0, 21),
            DefaultFunction::Keccak_256 => (1, 0, 22),
            DefaultFunction::Ripemd_160 => (1, 0, 23),
            DefaultFunction::VerifyEd25519Signature => (3, 0, 24),
            DefaultFunction::VerifyEcdsaSecp256k1Signature => (3, 0, 25),
            DefaultFunction::VerifySchnorrSecp256k1Signature => (3, 0, 26),
            DefaultFunction::AppendString => (2, 0, 27),
            DefaultFunction::EqualsString => (2, 0, 28),
            DefaultFunction::EncodeUtf8 => (1, 0, 29),
            DefaultFunction::DecodeUtf8 => (1, 0, 30),
            DefaultFunction::IfThenElse => (3, 1, 31),
            DefaultFunction::ChooseUnit => (2, 1, 32),
            DefaultFunction::Trace => (2, 1, 33),
            DefaultFunction::FstPair => (1, 2, 34),
            DefaultFunction::SndPair => (1, 2, 35),
            DefaultFunction::ChooseList => (3, 2, 36),
            DefaultFunction::MkCons => (2, 1, 37),
            DefaultFunction::HeadList => (1, 1, 38),
            DefaultFunction::TailList => (1, 1, 39),
            DefaultFunction::NullList => (1, 1, 40),
            DefaultFunction::ChooseData => (6, 1, 41),
            DefaultFunction::ConstrData => (2, 0, 42),
            DefaultFunction::MapData => (1, 0, 43),
            DefaultFunction::ListData => (1, 0, 44),
            DefaultFunction::IData => (1, 0, 45),
            DefaultFunction::BData => (1, 0, 46),
            DefaultFunction::UnConstrData => (1, 0, 47),
            DefaultFunction::UnMapData => (1, 0, 48),
            DefaultFunction::UnListData => (1, 0, 49),
            DefaultFunction::UnIData => (1, 0, 50),
            DefaultFunction::UnBData => (1, 0, 51),
            DefaultFunction::EqualsData => (2, 0, 52),
            DefaultFunction::SerialiseData => (1, 0, 53),
            DefaultFunction::MkPairData => (2, 0, 54),
            DefaultFunction::MkNilData => (1, 0, 55),
            DefaultFunction::MkNilPairData => (1, 0, 56),
            DefaultFunction::Bls12_381_G1_Add => (2, 0, 57),
            DefaultFunction::Bls12_381_G1_Neg => (1, 0, 58),
            DefaultFunction::Bls12_381_G1_ScalarMul => (2, 0, 59),
            DefaultFunction::Bls12_381_G1_Equal => (2, 0, 60),
            DefaultFunction::Bls12_381_G1_Compress => (1, 0, 61),
            DefaultFunction::Bls12_381_G1_Uncompress => (1, 0, 62),
            DefaultFunction::Bls12_381_G1_HashToGroup => (2, 0, 63),
            DefaultFunction::Bls12_381_G2_Add => (2, 0, 64),
            DefaultFunction::Bls12_381_G2_Neg => (1, 0, 65),
            DefaultFunction::Bls12_381_G2_ScalarMul => (2, 0, 66),
            DefaultFunction::Bls12_381_G2_Equal => (2, 0, 67),
            DefaultFunction::Bls12_381_G2_Compress => (1, 0, 68),
            DefaultFunction::Bls12_381_G2_Uncompress => (1, 0, 69),
            DefaultFunction::Bls12_381_G2_HashToGroup => (2, 0, 70),
            DefaultFunction::Bls12_381_MillerLoop => (2, 0, 71),
            DefaultFunction::Bls12_381_MulMlResult => (2, 0, 72),
            DefaultFunction::Bls12_381_FinalVerify => (2, 0, 73),
            DefaultFunction::IntegerToByteString => (3, 0, 74),
            DefaultFunction::ByteStringToInteger => (2, 0, 75),
            DefaultFunction::AndByteString => (3, 0, 76),
            DefaultFunction::OrByteString => (3, 0, 77),
            DefaultFunction::XorByteString => (3, 0, 78),
            DefaultFunction::ComplementByteString => (1, 0, 79),
            DefaultFunction::ReadBit => (2, 0, 80),
            DefaultFunction::WriteBits => (3, 0, 81),
            DefaultFunction::ReplicateByte => (2, 0, 82),
            DefaultFunction::ShiftByteString => (2, 0, 83),
            DefaultFunction::RotateByteString => (2, 0, 84),
            DefaultFunction::CountSetBits => (1, 0, 85),
            DefaultFunction::FindFirstSetBit => (1, 0, 86),
        }
    }

    pub open spec fn spec_arity(self) -> nat {
        self.spec_sig().0
    }

    pub open spec fn spec_force_count(self) -> nat {
        self.spec_sig().1
    }

    pub open spec fn spec_tag(self) -> nat {
        self.spec_sig().2
    }

    pub fn arity(&self) -> (r: usize)
        ensures
            r as nat == self.spec_arity(),
            1 <= r <= 6,
    {
        let (a, _, _) = self.sig();
        a
    }

    pub fn force_count(&self) -> (r: usize)
        ensures
            r as nat == self.spec_force_count(),
            r <= 2,
    {
        let (_, f, _) = self.sig();
        f
    }

    pub fn tag(&self) -> (r: usize)
        ensures
            r as nat == self.spec_tag(),
            r < BUILTIN_COUNT,
    {
        let (_, _, t) = self.sig();
        t
    }

    pub fn sig(&self) -> (r: (usize, usize, usize))
        ensures
            (r.0 as nat, r.1 as nat, r.2 as nat) == self.spec_sig(),
            1 <= r.0 <= 6,
            r.1 <= 2,
            r.2 < BUILTIN_COUNT,
    {
        match self {
            DefaultFunction::AddInteger => (2, 0, 0),
            DefaultFunction::SubtractInteger => (2, 0, 1),
            DefaultFunction::MultiplyInteger => (2, 0, 2),
            DefaultFunction::DivideInteger => (2, 0, 3),
            DefaultFunction::QuotientInteger => (2, 0, 4),
            DefaultFunction::RemainderInteger => (2, 0, 5),
            DefaultFunction::ModInteger => (2, 0, 6),
            DefaultFunction::EqualsInteger => (2, 0, 7),
            DefaultFunction::LessThanInteger => (2, 0, 8),
            DefaultFunction::LessThanEqualsInteger => (2, 0, 9),
            DefaultFunction::AppendByteString => (2, 0, 10),
            DefaultFunction::ConsByteString => (2, 0, 11),
            DefaultFunction::SliceByteString => (3, 0, 12),
            DefaultFunction::LengthOfByteString => (1, 0, 13),
            DefaultFunction::IndexByteString => (2, 0, 14),
            DefaultFunction::EqualsByteString => (2, 0, 15),
            DefaultFunction::LessThanByteString => (2, 0, 16),
            DefaultFunction::LessThanEqualsByteString => (2, 0, 17),
            DefaultFunction::Sha2_256 => (1, 0, 18),
            DefaultFunction::Sha3_256 => (1, 0, 19),
            DefaultFunction::Blake2b_224 => (1, 0, 20),
            DefaultFunction::Blake2b_256 => (1, 0, 21),
            DefaultFunction::Keccak_256 => (1, 0, 22),
            DefaultFunction::Ripemd_160 => (1, 0, 23),
            DefaultFunction::VerifyEd25519Signature => (3, 0, 24),
            DefaultFunction::VerifyEcdsaSecp256k1Signature => (3, 0, 25),
            DefaultFunction::VerifySchnorrSecp256k1Signature => (3, 0, 26),
            DefaultFunction::AppendString => (2, 0, 27),
            DefaultFunction::EqualsString => (2, 0, 28),
            DefaultFunction::EncodeUtf8 => (1, 0, 29),
            DefaultFunction::DecodeUtf8 => (1, 0, 30),
            DefaultFunction::IfThenElse => (3, 1, 31),
            DefaultFunction::ChooseUnit => (2, 1, 32),
            DefaultFunction::Trace => (2, 1, 33),
            DefaultFunction::FstPair => (1, 2, 34),
            DefaultFunction::SndPair => (1, 2, 35),
            DefaultFunction::ChooseList => (3, 2, 36),
            DefaultFunction::MkCons => (2, 1, 37),
            DefaultFunction::HeadList => (1, 1, 38),
            DefaultFunction::TailList => (1, 1, 39),
            DefaultFunction::NullList => (1, 1, 40),
            DefaultFunction::ChooseData => (6, 1, 41),
            DefaultFunction::ConstrData => (2, 0, 42),
            DefaultFunction::MapData => (1, 0, 43),
            DefaultFunction::ListData => (1, 0, 44),
            DefaultFunction::IData => (1, 0, 45),
            DefaultFunction::BData => (1, 0, 46),
            DefaultFunction::UnConstrData => (1, 0, 47),
            DefaultFunction::UnMapData => (1, 0, 48),
            DefaultFunction::UnListData => (1, 0, 49),
            DefaultFunction::UnIData => (1, 0, 50),
            DefaultFunction::UnBData => (1, 0, 51),
            DefaultFunction::EqualsData => (2, 0, 52),
            DefaultFunction::SerialiseData => (1, 0, 53),
            DefaultFunction::MkPairData => (2, 0, 54),
            DefaultFunction::MkNilData => (1, 0, 55),
            DefaultFunction::MkNilPairData => (1, 0, 56),
            DefaultFunction::Bls12_381_G1_Add => (2, 0, 57),
            DefaultFunction::Bls12_381_G1_Neg => (1, 0, 58),
            DefaultFunction::Bls12_381_G1_ScalarMul => (2, 0, 59),
            DefaultFunction::Bls12_381_G1_Equal => (2, 0, 60),
            DefaultFunction::Bls12_381_G1_Compress => (1, 0, 61),
            DefaultFunction::Bls12_381_G1_Uncompress => (1, 0, 62),
            DefaultFunction::Bls12_381_G1_HashToGroup => (2, 0, 63),
            DefaultFunction::Bls12_381_G2_Add => (2, 0, 64),
            DefaultFunction::Bls12_381_G2_Neg => (1, 0, 65),
            DefaultFunction::Bls12_381_G2_ScalarMul => (2, 0, 66),
            DefaultFunction::Bls12_381_G2_Equal => (2, 0, 67),
            DefaultFunction::Bls12_381_G2_Compress => (1, 0, 68),
            DefaultFunction::Bls12_381_G2_Uncompress => (1, 0, 69),
            DefaultFunction::Bls12_381_G2_HashToGroup => (2, 0, 70),
            DefaultFunction::Bls12_381_MillerLoop => (2, 0, 71),
            DefaultFunction::Bls12_381_MulMlResult => (2, 0, 72),
            DefaultFunction::Bls12_381_FinalVerify => (2, 0, 73),
            DefaultFunction::IntegerToByteString => (3, 0, 74),
            DefaultFunction::ByteStringToInteger => (2, 0, 75),
            DefaultFunction::AndByteString => (3, 0, 76),
            DefaultFunction::OrByteString => (3, 0, 77),
            DefaultFunction::XorByteString => (3, 0, 78),
            DefaultFunction::ComplementByteString => (1, 0, 79),
            DefaultFunction::ReadBit => (2, 0, 80),
            DefaultFunction::WriteBits => (3, 0, 81),
            DefaultFunction::ReplicateByte => (2, 0, 82),
            DefaultFunction::ShiftByteString => (2, 0, 83),
            DefaultFunction::RotateByteString => (2, 0, 84),
            DefaultFunction::CountSetBits => (1, 0, 85),
            DefaultFunction::FindFirstSetBit => (1, 0, 86),
        }
    }
}

} // verus!
