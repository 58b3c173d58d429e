//! The builtin runtime: the exact semantics of each builtin over
//! mathematical views, and the dispatcher the machine calls once a builtin
//! is saturated. Each dispatch unwraps its arguments, debits the budget by
//! the cost the table assigns, and performs the pure operation.

use vstd::prelude::*;
use crate::bigint::{
    abs_int, be_bytes_of, be_val, byte_len, fdiv, fmod, int_ex_mem, le_val, tquot, trem,
};
use crate::bls::{
    g1_add_of, g1_hash_of, g1_mul_of, g1_neg_of, g1_ok, g2_add_of, g2_hash_of, g2_mul_of,
    g2_neg_of, g2_ok, ml_final_verify, scalar_period_val,
};
use crate::builtin::DefaultFunction;
use crate::bytes::{
    bit_at, bits_to_bytes, bytes_lex_lt, count_ones, ffs_from, get_or, write_bits_seq, zip_len,
};
use crate::constant::{
    const_ex_mem, const_seq_ex_mem, data_ex_mem, data_pairs_ex_mem, data_seq_ex_mem, ConstV, DataV,
    Type,
};
use crate::cost::{sat_add, CostModel, ExBudget};
use crate::crypto::{
    blake2b_224_of, blake2b_256_of, ecdsa_parse_ok, ecdsa_valid, ed25519_valid, keccak_256_of,
    ripemd_160_of, schnorr_parse_ok, schnorr_valid, sha2_256_of, sha3_256_of,
};
use crate::error::MachineError;
use crate::value::{
    clone_value, lemma_value_unfold, mismatch_err, runtime_view, value_view, wf_value_exec,
    wf_valuev, Runtime, Value, ValueV,
};
use crate::constant::{
    char_count, clone_bytes, clone_constant, clone_data, clone_type, const_ex_mem_exec,
    data_ex_mem_exec, equals_data, lemma_const_view_unfold, lemma_wf_const_unfold, type_eq,
    wf_const_exec, Constant, PlutusData,
};
use crate::bigint::{normalize, BigNum};
use crate::cost::sat_add_i64;
use std::rc::Rc;
use vstd::string::StringExecFns;

verus! {

/// Which semantics variant the machine runs: V1 reduces `ConsByteString`'s
/// byte modulo 256 silently, V2 rejects out-of-range bytes.
#[derive(Clone, Copy, PartialEq, Eq, Structural, Debug)]
pub enum BuiltinSemantics {
    V1,
    V2,
}

/// The outcome of one builtin dispatch: a value or a fatal error, with the
/// budget and log as the dispatch leaves them.
pub struct CallOut {
    pub res: Result<ValueV, MachineError>,
    pub budget: (int, int),
    pub logs: Seq<Seq<char>>,
}

pub open spec fn sat_sub1(a: int, c: int) -> int {
    if a - c < i64::MIN {
        i64::MIN as int
    } else {
        a - c
    }
}

/// Debiting a cost, saturating at the counters' floor.
pub open spec fn spec_spend(b: (int, int), c: (int, int)) -> (int, int) {
    (sat_sub1(b.0, c.0), sat_sub1(b.1, c.1))
}

/// A budget with a negative component stops the machine.
pub open spec fn exhausted(b: (int, int)) -> bool {
    b.0 < 0 || b.1 < 0
}

pub open spec fn as_con(v: ValueV) -> Option<ConstV> {
    match v {
        ValueV::Con(c) => Some(c),
        _ => None,
    }
}

pub open spec fn as_int(v: ValueV) -> Option<int> {
    match v {
        ValueV::Con(ConstV::Integer(x)) => Some(x),
        _ => None,
    }
}

pub open spec fn as_bytes(v: ValueV) -> Option<Seq<u8>> {
    match v {
        ValueV::Con(ConstV::ByteString(b)) => Some(b),
        _ => None,
    }
}

pub open spec fn as_str(v: ValueV) -> Option<Seq<char>> {
    match v {
        ValueV::Con(ConstV::String(s)) => Some(s),
        _ => None,
    }
}

pub open spec fn as_bool(v: ValueV) -> Option<bool> {
    match v {
        ValueV::Con(ConstV::Bool(b)) => Some(b),
        _ => None,
    }
}

pub open spec fn is_unit(v: ValueV) -> bool {
    v == ValueV::Con(ConstV::Unit)
}

pub open spec fn as_list(v: ValueV) -> Option<(Type, Seq<ConstV>)> {
    match v {
        ValueV::Con(ConstV::List(t, items)) => Some((t, items)),
        _ => None,
    }
}

pub open spec fn as_pair(v: ValueV) -> Option<(Type, Type, ConstV, ConstV)> {
    match v {
        ValueV::Con(ConstV::Pair(t1, t2, a, b)) => Some((t1, t2, *a, *b)),
        _ => None,
    }
}

pub open spec fn as_data(v: ValueV) -> Option<DataV> {
    match v {
        ValueV::Con(ConstV::Data(d)) => Some(d),
        _ => None,
    }
}

pub open spec fn as_g1(v: ValueV) -> Option<Seq<u8>> {
    match v {
        ValueV::Con(ConstV::G1Element(b)) => Some(b),
        _ => None,
    }
}

pub open spec fn as_g2(v: ValueV) -> Option<Seq<u8>> {
    match v {
        ValueV::Con(ConstV::G2Element(b)) => Some(b),
        _ => None,
    }
}

pub open spec fn as_ml(v: ValueV) -> Option<Seq<(Seq<u8>, Seq<u8>)>> {
    match v {
        ValueV::Con(ConstV::MlResult(fs)) => Some(fs),
        _ => None,
    }
}

/// Ex-memory of a string: its character count, clamped to the counter.
pub open spec fn str_ex_mem(s: Seq<char>) -> int {
    if s.len() > i64::MAX {
        i64::MAX as int
    } else {
        s.len() as int
    }
}

/// Ex-memory of a byte string by content.
pub open spec fn bs_ex_mem(b: Seq<u8>) -> int {
    crate::cost::bytes_ex_mem(b.len())
}

/// Ex-memory of an arbitrary value: constants by their own measure, every
/// closure for one word.
pub open spec fn value_ex_mem(v: ValueV) -> int {
    match v {
        ValueV::Con(c) => const_ex_mem(c),
        _ => 1,
    }
}

pub open spec fn err_out(e: MachineError, b: (int, int), l: Seq<Seq<char>>) -> CallOut {
    CallOut { res: Err(e), budget: b, logs: l }
}

pub open spec fn ok_out(v: ValueV, b: (int, int), l: Seq<Seq<char>>) -> CallOut {
    CallOut { res: Ok(v), budget: b, logs: l }
}

/// A cost never credits: clamped to zero from below.
pub open spec fn clamp0(c: (int, int)) -> (int, int) {
    (
        if c.0 < 0 {
            0
        } else {
            c.0
        },
        if c.1 < 0 {
            0
        } else {
            c.1
        },
    )
}

/// The budget after this dispatch's own cost is debited.
pub open spec fn charge(
    cm: CostModel,
    fun: DefaultFunction,
    ems: Seq<int>,
    b: (int, int),
) -> (int, int) {
    spec_spend(b, clamp0(cm.spec_builtin_cost(fun, ems)))
}

/// The datum behind each element of a list of `Data` constants.
pub open spec fn datas_of(items: Seq<ConstV>) -> Seq<DataV> {
    Seq::new(
        items.len(),
        |i: int|
            if 0 <= i < items.len() && items[i] is Data {
                items[i]->Data_0
            } else {
                DataV::Integer(0)
            },
    )
}

/// The datum pairs behind a list of pair-of-`Data` constants.
pub open spec fn data_pairs_of(items: Seq<ConstV>) -> Seq<(DataV, DataV)> {
    Seq::new(
        items.len(),
        |i: int|
            if 0 <= i < items.len() && items[i] is Pair && *items[i]->Pair_2 is Data
                && *items[i]->Pair_3 is Data {
                ((*items[i]->Pair_2)->Data_0, (*items[i]->Pair_3)->Data_0)
            } else {
                (DataV::Integer(0), DataV::Integer(0))
            },
    )
}

/// The integers behind a list of integer constants.
pub open spec fn ints_of(items: Seq<ConstV>) -> Seq<int> {
    Seq::new(
        items.len(),
        |i: int|
            if 0 <= i < items.len() && items[i] is Integer {
                items[i]->Integer_0
            } else {
                0
            },
    )
}

/// The `Data` constants for a sequence of data.
pub open spec fn data_consts(ds: Seq<DataV>) -> Seq<ConstV> {
    Seq::new(ds.len(), |i: int| ConstV::Data(ds[i]))
}

/// The pair-of-`Data` constants for a sequence of datum pairs.
pub open spec fn data_pair_consts(ps: Seq<(DataV, DataV)>) -> Seq<ConstV> {
    Seq::new(
        ps.len(),
        |i: int|
            ConstV::Pair(
                Type::Data,
                Type::Data,
                Box::new(ConstV::Data(ps[i].0)),
                Box::new(ConstV::Data(ps[i].1)),
            ),
    )
}

/// The first out-of-range bit index in a write, if any.
pub open spec fn first_oob(ixs: Seq<int>, bits: int) -> Option<int>
    decreases ixs.len(),
{
    if ixs.len() == 0 {
        None
    } else if !(0 <= ixs.first() < bits) {
        Some(0)
    } else {
        match first_oob(ixs.drop_first(), bits) {
            Some(i) => Some(i + 1),
            None => None,
        }
    }
}

/// Ex-memory of a size operand measured in words, as `IntegerToByteString`
/// and `ReplicateByte` cost their first argument.
pub open spec fn size_ex_mem(size: int) -> int {
    if size == 0 {
        0
    } else {
        (size - 1) / 8 + 1
    }
}

/// The magnitude of a shift, clamped to the counter.
pub open spec fn shift_ex_mem(n: int) -> int {
    if abs_int(n) > i64::MAX {
        i64::MAX as int
    } else {
        abs_int(n)
    }
}

/// What one saturated builtin dispatch does: the single source of truth the
/// executable dispatcher is proved against.
#[verifier::opaque]
pub open spec fn spec_call(
    cm: CostModel,
    sem: BuiltinSemantics,
    fun: DefaultFunction,
    args: Seq<ValueV>,
    budget: (int, int),
    logs: Seq<Seq<char>>,
) -> CallOut
    recommends
        args.len() == fun.spec_arity(),
{
    match fun {
        DefaultFunction::AddInteger => spec_int_bin(cm, fun, args, budget, logs),
        DefaultFunction::SubtractInteger => spec_int_bin(cm, fun, args, budget, logs),
        DefaultFunction::MultiplyInteger => spec_int_bin(cm, fun, args, budget, logs),
        DefaultFunction::DivideInteger => spec_int_bin(cm, fun, args, budget, logs),
        DefaultFunction::QuotientInteger => spec_int_bin(cm, fun, args, budget, logs),
        DefaultFunction::RemainderInteger => spec_int_bin(cm, fun, args, budget, logs),
        DefaultFunction::ModInteger => spec_int_bin(cm, fun, args, budget, logs),
        DefaultFunction::EqualsInteger => spec_int_bin(cm, fun, args, budget, logs),
        DefaultFunction::LessThanInteger => spec_int_bin(cm, fun, args, budget, logs),
        DefaultFunction::LessThanEqualsInteger => spec_int_bin(cm, fun, args, budget, logs),
        DefaultFunction::AppendByteString => spec_bytes_group(cm, fun, args, budget, logs),
        DefaultFunction::ConsByteString => spec_cons_byte(cm, sem, args, budget, logs),
        DefaultFunction::SliceByteString => spec_bytes_group(cm, fun, args, budget, logs),
        DefaultFunction::LengthOfByteString => spec_bytes_group(cm, fun, args, budget, logs),
        DefaultFunction::IndexByteString => spec_bytes_group(cm, fun, args, budget, logs),
        DefaultFunction::EqualsByteString => spec_bytes_group(cm, fun, args, budget, logs),
        DefaultFunction::LessThanByteString => spec_bytes_group(cm, fun, args, budget, logs),
        DefaultFunction::LessThanEqualsByteString => spec_bytes_group(cm, fun, args, budget, logs),
        DefaultFunction::Sha2_256 => spec_hash(cm, fun, args, budget, logs),
        DefaultFunction::Sha3_256 => spec_hash(cm, fun, args, budget, logs),
        DefaultFunction::Blake2b_224 => spec_hash(cm, fun, args, budget, logs),
        DefaultFunction::Blake2b_256 => spec_hash(cm, fun, args, budget, logs),
        DefaultFunction::Keccak_256 => spec_hash(cm, fun, args, budget, logs),
        DefaultFunction::Ripemd_160 => spec_hash(cm, fun, args, budget, logs),
        DefaultFunction::VerifyEd25519Signature => spec_sig(cm, fun, args, budget, logs),
        DefaultFunction::VerifyEcdsaSecp256k1Signature => spec_sig(cm, fun, args, budget, logs),
        DefaultFunction::VerifySchnorrSecp256k1Signature => spec_sig(cm, fun, args, budget, logs),
        DefaultFunction::AppendString => spec_string_group(cm, fun, args, budget, logs),
        DefaultFunction::EqualsString => spec_string_group(cm, fun, args, budget, logs),
        DefaultFunction::EncodeUtf8 => spec_string_group(cm, fun, args, budget, logs),
        DefaultFunction::DecodeUtf8 => spec_string_group(cm, fun, args, budget, logs),
        DefaultFunction::IfThenElse => spec_control(cm, fun, args, budget, logs),
        DefaultFunction::ChooseUnit => spec_control(cm, fun, args, budget, logs),
        DefaultFunction::Trace => spec_control(cm, fun, args, budget, logs),
        DefaultFunction::FstPair => spec_list_group(cm, fun, args, budget, logs),
        DefaultFunction::SndPair => spec_list_group(cm, fun, args, budget, logs),
        DefaultFunction::ChooseList => spec_list_group(cm, fun, args, budget, logs),
        DefaultFunction::MkCons => spec_list_group(cm, fun, args, budget, logs),
        DefaultFunction::HeadList => spec_list_group(cm, fun, args, budget, logs),
        DefaultFunction::TailList => spec_list_group(cm, fun, args, budget, logs),
        DefaultFunction::NullList => spec_list_group(cm, fun, args, budget, logs),
        DefaultFunction::ChooseData => spec_data_group(cm, fun, args, budget, logs),
        DefaultFunction::ConstrData => spec_data_group(cm, fun, args, budget, logs),
        DefaultFunction::MapData => spec_data_group(cm, fun, args, budget, logs),
        DefaultFunction::ListData => spec_data_group(cm, fun, args, budget, logs),
        DefaultFunction::IData => spec_data_group(cm, fun, args, budget, logs),
        DefaultFunction::BData => spec_data_group(cm, fun, args, budget, logs),
        DefaultFunction::UnConstrData => spec_data_group(cm, fun, args, budget, logs),
        DefaultFunction::UnMapData => spec_data_group(cm, fun, args, budget, logs),
        DefaultFunction::UnListData => spec_data_group(cm, fun, args, budget, logs),
        DefaultFunction::UnIData => spec_data_group(cm, fun, args, budget, logs),
        DefaultFunction::UnBData => spec_data_group(cm, fun, args, budget, logs),
        DefaultFunction::EqualsData => spec_data_group(cm, fun, args, budget, logs),
        DefaultFunction::SerialiseData => spec_data_group(cm, fun, args, budget, logs),
        DefaultFunction::MkPairData => spec_data_group(cm, fun, args, budget, logs),
        DefaultFunction::MkNilData => spec_data_group(cm, fun, args, budget, logs),
        DefaultFunction::MkNilPairData => spec_data_group(cm, fun, args, budget, logs),
        DefaultFunction::Bls12_381_G1_Add => spec_bls(cm, fun, args, budget, logs),
        DefaultFunction::Bls12_381_G1_Neg => spec_bls(cm, fun, args, budget, logs),
        DefaultFunction::Bls12_381_G1_ScalarMul => spec_bls(cm, fun, args, budget, logs),
        DefaultFunction::Bls12_381_G1_Equal => spec_bls(cm, fun, args, budget, logs),
        DefaultFunction::Bls12_381_G1_Compress => spec_bls(cm, fun, args, budget, logs),
        DefaultFunction::Bls12_381_G1_Uncompress => spec_bls(cm, fun, args, budget, logs),
        DefaultFunction::Bls12_381_G1_HashToGroup => spec_bls(cm, fun, args, budget, logs),
        DefaultFunction::Bls12_381_G2_Add => spec_bls(cm, fun, args, budget, logs),
        DefaultFunction::Bls12_381_G2_Neg => spec_bls(cm, fun, args, budget, logs),
        DefaultFunction::Bls12_381_G2_ScalarMul => spec_bls(cm, fun, args, budget, logs),
        DefaultFunction::Bls12_381_G2_Equal => spec_bls(cm, fun, args, budget, logs),
        DefaultFunction::Bls12_381_G2_Compress => spec_bls(cm, fun, args, budget, logs),
        DefaultFunction::Bls12_381_G2_Uncompress => spec_bls(cm, fun, args, budget, logs),
        DefaultFunction::Bls12_381_G2_HashToGroup => spec_bls(cm, fun, args, budget, logs),
        DefaultFunction::Bls12_381_MillerLoop => spec_bls(cm, fun, args, budget, logs),
        DefaultFunction::Bls12_381_MulMlResult => spec_bls(cm, fun, args, budget, logs),
        DefaultFunction::Bls12_381_FinalVerify => spec_bls(cm, fun, args, budget, logs),
        DefaultFunction::IntegerToByteString => spec_bits_group(cm, fun, args, budget, logs),
        DefaultFunction::ByteStringToInteger => spec_bits_group(cm, fun, args, budget, logs),
        DefaultFunction::AndByteString => spec_bits_group(cm, fun, args, budget, logs),
        DefaultFunction::OrByteString => spec_bits_group(cm, fun, args, budget, logs),
        DefaultFunction::XorByteString => spec_bits_group(cm, fun, args, budget, logs),
        DefaultFunction::ComplementByteString => spec_bits_group(cm, fun, args, budget, logs),
        DefaultFunction::ReadBit => spec_bits_group(cm, fun, args, budget, logs),
        DefaultFunction::WriteBits => spec_bits_group(cm, fun, args, budget, logs),
        DefaultFunction::ReplicateByte => spec_bits_group(cm, fun, args, budget, logs),
        DefaultFunction::ShiftByteString => spec_bits_group(cm, fun, args, budget, logs),
        DefaultFunction::RotateByteString => spec_bits_group(cm, fun, args, budget, logs),
        DefaultFunction::CountSetBits => spec_bits_group(cm, fun, args, budget, logs),
        DefaultFunction::FindFirstSetBit => spec_bits_group(cm, fun, args, budget, logs),
    }
}

/// Integer arithmetic and comparisons: exact arbitrary-precision results,
/// floored division for Divide/Mod, truncated for Quotient/Remainder, and
/// division by zero fatal after the cost is charged.
pub open spec fn spec_int_bin(
    cm: CostModel,
    fun: DefaultFunction,
    args: Seq<ValueV>,
    budget: (int, int),
    logs: Seq<Seq<char>>,
) -> CallOut {
    if as_int(args[0]) is None {
        err_out(mismatch_err(Type::Integer, args[0]), budget, logs)
    } else if as_int(args[1]) is None {
        err_out(mismatch_err(Type::Integer, args[1]), budget, logs)
    } else {
        let x = as_int(args[0])->Some_0;
        let y = as_int(args[1])->Some_0;
        let b2 = charge(cm, fun, seq![int_ex_mem(x), int_ex_mem(y)], budget);
        if exhausted(b2) {
            err_out(MachineError::OutOfBudget, b2, logs)
        } else {
            match fun {
                DefaultFunction::AddInteger => ok_out(
                    ValueV::Con(ConstV::Integer(x + y)),
                    b2,
                    logs,
                ),
                DefaultFunction::SubtractInteger => ok_out(
                    ValueV::Con(ConstV::Integer(x - y)),
                    b2,
                    logs,
                ),
                DefaultFunction::MultiplyInteger => ok_out(
                    ValueV::Con(ConstV::Integer(x * y)),
                    b2,
                    logs,
                ),
                DefaultFunction::DivideInteger => if y == 0 {
                    err_out(MachineError::DivisionByZero, b2, logs)
                } else {
                    ok_out(ValueV::Con(ConstV::Integer(fdiv(x, y))), b2, logs)
                },
                DefaultFunction::QuotientInteger => if y == 0 {
                    err_out(MachineError::DivisionByZero, b2, logs)
                } else {
                    ok_out(ValueV::Con(ConstV::Integer(tquot(x, y))), b2, logs)
                },
                DefaultFunction::RemainderInteger => if y == 0 {
                    err_out(MachineError::DivisionByZero, b2, logs)
                } else {
                    ok_out(ValueV::Con(ConstV::Integer(trem(x, y))), b2, logs)
                },
                DefaultFunction::ModInteger => if y == 0 {
                    err_out(MachineError::DivisionByZero, b2, logs)
                } else {
                    ok_out(ValueV::Con(ConstV::Integer(fmod(x, y))), b2, logs)
                },
                DefaultFunction::EqualsInteger => ok_out(
                    ValueV::Con(ConstV::Bool(x == y)),
                    b2,
                    logs,
                ),
                DefaultFunction::LessThanInteger => ok_out(
                    ValueV::Con(ConstV::Bool(x < y)),
                    b2,
                    logs,
                ),
                _ => ok_out(ValueV::Con(ConstV::Bool(x <= y)), b2, logs),
            }
        }
    }
}

/// `ConsByteString`: under V1 the byte is the integer reduced modulo 256,
/// under V2 an out-of-range integer is fatal.
pub open spec fn spec_cons_byte(
    cm: CostModel,
    sem: BuiltinSemantics,
    args: Seq<ValueV>,
    budget: (int, int),
    logs: Seq<Seq<char>>,
) -> CallOut {
    if as_int(args[0]) is None {
        err_out(mismatch_err(Type::Integer, args[0]), budget, logs)
    } else if as_bytes(args[1]) is None {
        err_out(mismatch_err(Type::ByteString, args[1]), budget, logs)
    } else {
        let x = as_int(args[0])->Some_0;
        let b = as_bytes(args[1])->Some_0;
        let b2 = charge(
            cm,
            DefaultFunction::ConsByteString,
            seq![int_ex_mem(x), bs_ex_mem(b)],
            budget,
        );
        if exhausted(b2) {
            err_out(MachineError::OutOfBudget, b2, logs)
        } else {
            match sem {
                BuiltinSemantics::V1 => ok_out(
                    ValueV::Con(ConstV::ByteString(seq![fmod(x, 256) as u8] + b)),
                    b2,
                    logs,
                ),
                BuiltinSemantics::V2 => if x < 0 || x > 255 {
                    err_out(MachineError::ByteStringConsNotAByte, b2, logs)
                } else {
                    ok_out(ValueV::Con(ConstV::ByteString(seq![x as u8] + b)), b2, logs)
                },
            }
        }
    }
}

/// Byte-string structure: append, slice with clamped window, length,
/// checked indexing and lexicographic comparisons.
pub open spec fn spec_bytes_group(
    cm: CostModel,
    fun: DefaultFunction,
    args: Seq<ValueV>,
    budget: (int, int),
    logs: Seq<Seq<char>>,
) -> CallOut {
    match fun {
        DefaultFunction::AppendByteString => if as_bytes(args[0]) is None {
            err_out(mismatch_err(Type::ByteString, args[0]), budget, logs)
        } else if as_bytes(args[1]) is None {
            err_out(mismatch_err(Type::ByteString, args[1]), budget, logs)
        } else {
            let a = as_bytes(args[0])->Some_0;
            let b = as_bytes(args[1])->Some_0;
            let b2 = charge(cm, fun, seq![bs_ex_mem(a), bs_ex_mem(b)], budget);
            if exhausted(b2) {
                err_out(MachineError::OutOfBudget, b2, logs)
            } else {
                ok_out(ValueV::Con(ConstV::ByteString(a + b)), b2, logs)
            }
        },
        DefaultFunction::SliceByteString => if as_int(args[0]) is None {
            err_out(mismatch_err(Type::Integer, args[0]), budget, logs)
        } else if as_int(args[1]) is None {
            err_out(mismatch_err(Type::Integer, args[1]), budget, logs)
        } else if as_bytes(args[2]) is None {
            err_out(mismatch_err(Type::ByteString, args[2]), budget, logs)
        } else {
            let skip0 = as_int(args[0])->Some_0;
            let take0 = as_int(args[1])->Some_0;
            let b = as_bytes(args[2])->Some_0;
            let b2 = charge(
                cm,
                fun,
                seq![int_ex_mem(skip0), int_ex_mem(take0), bs_ex_mem(b)],
                budget,
            );
            if exhausted(b2) {
                err_out(MachineError::OutOfBudget, b2, logs)
            } else {
                let len = b.len() as int;
                let skip = if skip0 < 0 {
                    0
                } else if skip0 >= len {
                    len
                } else {
                    skip0
                };
                let take = if take0 < 0 {
                    0
                } else if take0 >= len {
                    len
                } else {
                    take0
                };
                let end = if skip + take > len {
                    len
                } else {
                    skip + take
                };
                ok_out(ValueV::Con(ConstV::ByteString(b.subrange(skip, end))), b2, logs)
            }
        },
        DefaultFunction::LengthOfByteString => if as_bytes(args[0]) is None {
            err_out(mismatch_err(Type::ByteString, args[0]), budget, logs)
        } else {
            let a = as_bytes(args[0])->Some_0;
            let b2 = charge(cm, fun, seq![bs_ex_mem(a)], budget);
            if exhausted(b2) {
                err_out(MachineError::OutOfBudget, b2, logs)
            } else {
                ok_out(ValueV::Con(ConstV::Integer(a.len() as int)), b2, logs)
            }
        },
        DefaultFunction::IndexByteString => if as_bytes(args[0]) is None {
            err_out(mismatch_err(Type::ByteString, args[0]), budget, logs)
        } else if as_int(args[1]) is None {
            err_out(mismatch_err(Type::Integer, args[1]), budget, logs)
        } else {
            let a = as_bytes(args[0])->Some_0;
            let i = as_int(args[1])->Some_0;
            let b2 = charge(cm, fun, seq![bs_ex_mem(a), int_ex_mem(i)], budget);
            if exhausted(b2) {
                err_out(MachineError::OutOfBudget, b2, logs)
            } else if 0 <= i < a.len() {
                ok_out(ValueV::Con(ConstV::Integer(a[i] as int)), b2, logs)
            } else {
                err_out(MachineError::ByteStringOutOfBounds, b2, logs)
            }
        },
        _ => if as_bytes(args[0]) is None {
            err_out(mismatch_err(Type::ByteString, args[0]), budget, logs)
        } else if as_bytes(args[1]) is None {
            err_out(mismatch_err(Type::ByteString, args[1]), budget, logs)
        } else {
            let a = as_bytes(args[0])->Some_0;
            let b = as_bytes(args[1])->Some_0;
            let b2 = charge(cm, fun, seq![bs_ex_mem(a), bs_ex_mem(b)], budget);
            if exhausted(b2) {
                err_out(MachineError::OutOfBudget, b2, logs)
            } else {
                match fun {
                    DefaultFunction::EqualsByteString => ok_out(
                        ValueV::Con(ConstV::Bool(a == b)),
                        b2,
                        logs,
                    ),
                    DefaultFunction::LessThanByteString => ok_out(
                        ValueV::Con(ConstV::Bool(bytes_lex_lt(a, b))),
                        b2,
                        logs,
                    ),
                    _ => ok_out(ValueV::Con(ConstV::Bool(!bytes_lex_lt(b, a))), b2, logs),
                }
            }
        },
    }
}

/// The byte length of each digest, as the corresponding algorithm fixes it.
pub open spec fn digest_len(fun: DefaultFunction) -> nat {
    match fun {
        DefaultFunction::Blake2b_224 => 28,
        DefaultFunction::Ripemd_160 => 20,
        _ => 32,
    }
}

pub open spec fn is_hash_fun(fun: DefaultFunction) -> bool {
    ||| fun == DefaultFunction::Sha2_256
    ||| fun == DefaultFunction::Sha3_256
    ||| fun == DefaultFunction::Blake2b_224
    ||| fun == DefaultFunction::Blake2b_256
    ||| fun == DefaultFunction::Keccak_256
    ||| fun == DefaultFunction::Ripemd_160
}

/// Hashing: a fixed-size digest named after the outside function.
pub open spec fn spec_hash(
    cm: CostModel,
    fun: DefaultFunction,
    args: Seq<ValueV>,
    budget: (int, int),
    logs: Seq<Seq<char>>,
) -> CallOut {
    if as_bytes(args[0]) is None {
        err_out(mismatch_err(Type::ByteString, args[0]), budget, logs)
    } else {
        let a = as_bytes(args[0])->Some_0;
        let b2 = charge(cm, fun, seq![bs_ex_mem(a)], budget);
        if exhausted(b2) {
            err_out(MachineError::OutOfBudget, b2, logs)
        } else {
            let digest = match fun {
                DefaultFunction::Sha2_256 => sha2_256_of(a),
                DefaultFunction::Sha3_256 => sha3_256_of(a),
                DefaultFunction::Blake2b_224 => blake2b_224_of(a),
                DefaultFunction::Blake2b_256 => blake2b_256_of(a),
                DefaultFunction::Keccak_256 => keccak_256_of(a),
                _ => ripemd_160_of(a),
            };
            ok_out(ValueV::Con(ConstV::ByteString(digest)), b2, logs)
        }
    }
}

/// Signature verification: Ed25519 enforces the key and signature lengths
/// itself; the secp256k1 verifiers treat a parse failure as fatal.
pub open spec fn spec_sig(
    cm: CostModel,
    fun: DefaultFunction,
    args: Seq<ValueV>,
    budget: (int, int),
    logs: Seq<Seq<char>>,
) -> CallOut {
    if as_bytes(args[0]) is None {
        err_out(mismatch_err(Type::ByteString, args[0]), budget, logs)
    } else if as_bytes(args[1]) is None {
        err_out(mismatch_err(Type::ByteString, args[1]), budget, logs)
    } else if as_bytes(args[2]) is None {
        err_out(mismatch_err(Type::ByteString, args[2]), budget, logs)
    } else {
        let pk = as_bytes(args[0])->Some_0;
        let msg = as_bytes(args[1])->Some_0;
        let sig = as_bytes(args[2])->Some_0;
        let b2 = charge(cm, fun, seq![bs_ex_mem(pk), bs_ex_mem(msg), bs_ex_mem(sig)], budget);
        if exhausted(b2) {
            err_out(MachineError::OutOfBudget, b2, logs)
        } else {
            match fun {
                DefaultFunction::VerifyEd25519Signature => if pk.len() != 32 {
                    err_out(
                        MachineError::UnexpectedEd25519PublicKeyLength(pk.len() as usize),
                        b2,
                        logs,
                    )
                } else if sig.len() != 64 {
                    err_out(
                        MachineError::UnexpectedEd25519SignatureLength(sig.len() as usize),
                        b2,
                        logs,
                    )
                } else {
                    ok_out(ValueV::Con(ConstV::Bool(ed25519_valid(pk, msg, sig))), b2, logs)
                },
                DefaultFunction::VerifyEcdsaSecp256k1Signature => if ecdsa_parse_ok(
                    pk,
                    msg,
                    sig,
                ) {
                    ok_out(ValueV::Con(ConstV::Bool(ecdsa_valid(pk, msg, sig))), b2, logs)
                } else {
                    err_out(MachineError::Secp256k1Error, b2, logs)
                },
                _ => if schnorr_parse_ok(pk, sig) {
                    ok_out(ValueV::Con(ConstV::Bool(schnorr_valid(pk, msg, sig))), b2, logs)
                } else {
                    err_out(MachineError::Secp256k1Error, b2, logs)
                },
            }
        }
    }
}

/// Strings: concatenation, equality and the UTF-8 codecs, with vstd's
/// UTF-8 model as the reference.
pub open spec fn spec_string_group(
    cm: CostModel,
    fun: DefaultFunction,
    args: Seq<ValueV>,
    budget: (int, int),
    logs: Seq<Seq<char>>,
) -> CallOut {
    match fun {
        DefaultFunction::AppendString => if as_str(args[0]) is None {
            err_out(mismatch_err(Type::String, args[0]), budget, logs)
        } else if as_str(args[1]) is None {
            err_out(mismatch_err(Type::String, args[1]), budget, logs)
        } else {
            let a = as_str(args[0])->Some_0;
            let b = as_str(args[1])->Some_0;
            let b2 = charge(cm, fun, seq![str_ex_mem(a), str_ex_mem(b)], budget);
            if exhausted(b2) {
                err_out(MachineError::OutOfBudget, b2, logs)
            } else {
                ok_out(ValueV::Con(ConstV::String(a + b)), b2, logs)
            }
        },
        DefaultFunction::EqualsString => if as_str(args[0]) is None {
            err_out(mismatch_err(Type::String, args[0]), budget, logs)
        } else if as_str(args[1]) is None {
            err_out(mismatch_err(Type::String, args[1]), budget, logs)
        } else {
            let a = as_str(args[0])->Some_0;
            let b = as_str(args[1])->Some_0;
            let b2 = charge(cm, fun, seq![str_ex_mem(a), str_ex_mem(b)], budget);
            if exhausted(b2) {
                err_out(MachineError::OutOfBudget, b2, logs)
            } else {
                ok_out(ValueV::Con(ConstV::Bool(a == b)), b2, logs)
            }
        },
        DefaultFunction::EncodeUtf8 => if as_str(args[0]) is None {
            err_out(mismatch_err(Type::String, args[0]), budget, logs)
        } else {
            let a = as_str(args[0])->Some_0;
            let b2 = charge(cm, fun, seq![str_ex_mem(a)], budget);
            if exhausted(b2) {
                err_out(MachineError::OutOfBudget, b2, logs)
            } else {
                ok_out(ValueV::Con(ConstV::ByteString(vstd::utf8::encode_utf8(a))), b2, logs)
            }
        },
        _ => if as_bytes(args[0]) is None {
            err_out(mismatch_err(Type::ByteString, args[0]), budget, logs)
        } else {
            let a = as_bytes(args[0])->Some_0;
            let b2 = charge(cm, fun, seq![bs_ex_mem(a)], budget);
            if exhausted(b2) {
                err_out(MachineError::OutOfBudget, b2, logs)
            } else if vstd::utf8::valid_utf8(a) {
                ok_out(ValueV::Con(ConstV::String(vstd::utf8::decode_utf8(a))), b2, logs)
            } else {
                err_out(MachineError::DecodeUtf8Error, b2, logs)
            }
        },
    }
}

/// Branch selection and tracing: each charges its own table cost and hands
/// back the already-evaluated value untouched; the unselected branch costs
/// nothing further.
pub open spec fn spec_control(
    cm: CostModel,
    fun: DefaultFunction,
    args: Seq<ValueV>,
    budget: (int, int),
    logs: Seq<Seq<char>>,
) -> CallOut {
    match fun {
        DefaultFunction::IfThenElse => if as_bool(args[0]) is None {
            err_out(mismatch_err(Type::Bool, args[0]), budget, logs)
        } else {
            let b2 = charge(
                cm,
                fun,
                seq![1, value_ex_mem(args[1]), value_ex_mem(args[2])],
                budget,
            );
            if exhausted(b2) {
                err_out(MachineError::OutOfBudget, b2, logs)
            } else if as_bool(args[0])->Some_0 {
                ok_out(args[1], b2, logs)
            } else {
                ok_out(args[2], b2, logs)
            }
        },
        DefaultFunction::ChooseUnit => if !is_unit(args[0]) {
            err_out(mismatch_err(Type::Unit, args[0]), budget, logs)
        } else {
            let b2 = charge(cm, fun, seq![1, value_ex_mem(args[1])], budget);
            if exhausted(b2) {
                err_out(MachineError::OutOfBudget, b2, logs)
            } else {
                ok_out(args[1], b2, logs)
            }
        },
        _ => if as_str(args[0]) is None {
            err_out(mismatch_err(Type::String, args[0]), budget, logs)
        } else {
            let s = as_str(args[0])->Some_0;
            let b2 = charge(cm, fun, seq![str_ex_mem(s), value_ex_mem(args[1])], budget);
            if exhausted(b2) {
                err_out(MachineError::OutOfBudget, b2, logs)
            } else {
                CallOut { res: Ok(args[1]), budget: b2, logs: logs.push(s) }
            }
        },
    }
}

/// Pairs and lists: projections, construction-time element type checks,
/// and the checked head and tail.
pub open spec fn spec_list_group(
    cm: CostModel,
    fun: DefaultFunction,
    args: Seq<ValueV>,
    budget: (int, int),
    logs: Seq<Seq<char>>,
) -> CallOut {
    match fun {
        DefaultFunction::FstPair => if as_pair(args[0]) is None {
            err_out(
                mismatch_err(
                    Type::Pair(Box::new(Type::Unit), Box::new(Type::Unit)),
                    args[0],
                ),
                budget,
                logs,
            )
        } else {
            let p = as_pair(args[0])->Some_0;
            let b2 = charge(
                cm,
                fun,
                seq![sat_add(const_ex_mem(p.2), const_ex_mem(p.3))],
                budget,
            );
            if exhausted(b2) {
                err_out(MachineError::OutOfBudget, b2, logs)
            } else {
                ok_out(ValueV::Con(p.2), b2, logs)
            }
        },
        DefaultFunction::SndPair => if as_pair(args[0]) is None {
            err_out(
                mismatch_err(
                    Type::Pair(Box::new(Type::Unit), Box::new(Type::Unit)),
                    args[0],
                ),
                budget,
                logs,
            )
        } else {
            let p = as_pair(args[0])->Some_0;
            let b2 = charge(
                cm,
                fun,
                seq![sat_add(const_ex_mem(p.2), const_ex_mem(p.3))],
                budget,
            );
            if exhausted(b2) {
                err_out(MachineError::OutOfBudget, b2, logs)
            } else {
                ok_out(ValueV::Con(p.3), b2, logs)
            }
        },
        DefaultFunction::ChooseList => if as_list(args[0]) is None {
            err_out(mismatch_err(Type::List(Box::new(Type::Unit)), args[0]), budget, logs)
        } else {
            let l = as_list(args[0])->Some_0;
            let b2 = charge(
                cm,
                fun,
                seq![
                    const_seq_ex_mem(l.1),
                    value_ex_mem(args[1]),
                    value_ex_mem(args[2]),
                ],
                budget,
            );
            if exhausted(b2) {
                err_out(MachineError::OutOfBudget, b2, logs)
            } else if l.1.len() == 0 {
                ok_out(args[1], b2, logs)
            } else {
                ok_out(args[2], b2, logs)
            }
        },
        DefaultFunction::MkCons => if as_con(args[0]) is None {
            err_out(MachineError::NotAConstant, budget, logs)
        } else if as_list(args[1]) is None {
            err_out(mismatch_err(Type::List(Box::new(Type::Unit)), args[1]), budget, logs)
        } else {
            let item = as_con(args[0])->Some_0;
            let l = as_list(args[1])->Some_0;
            let b2 = charge(
                cm,
                fun,
                seq![const_ex_mem(item), const_seq_ex_mem(l.1)],
                budget,
            );
            if exhausted(b2) {
                err_out(MachineError::OutOfBudget, b2, logs)
            } else if crate::constant::vtype_of(item) != l.0 {
                err_out(MachineError::TypeMismatch(l.0), b2, logs)
            } else {
                ok_out(ValueV::Con(ConstV::List(l.0, seq![item] + l.1)), b2, logs)
            }
        },
        DefaultFunction::HeadList => if as_list(args[0]) is None {
            err_out(mismatch_err(Type::List(Box::new(Type::Unit)), args[0]), budget, logs)
        } else {
            let l = as_list(args[0])->Some_0;
            let b2 = charge(cm, fun, seq![const_seq_ex_mem(l.1)], budget);
            if exhausted(b2) {
                err_out(MachineError::OutOfBudget, b2, logs)
            } else if l.1.len() == 0 {
                err_out(MachineError::EmptyList, b2, logs)
            } else {
                ok_out(ValueV::Con(l.1[0]), b2, logs)
            }
        },
        DefaultFunction::TailList => if as_list(args[0]) is None {
            err_out(mismatch_err(Type::List(Box::new(Type::Unit)), args[0]), budget, logs)
        } else {
            let l = as_list(args[0])->Some_0;
            let b2 = charge(cm, fun, seq![const_seq_ex_mem(l.1)], budget);
            if exhausted(b2) {
                err_out(MachineError::OutOfBudget, b2, logs)
            } else if l.1.len() == 0 {
                err_out(MachineError::EmptyList, b2, logs)
            } else {
                ok_out(ValueV::Con(ConstV::List(l.0, l.1.drop_first())), b2, logs)
            }
        },
        _ => if as_list(args[0]) is None {
            err_out(mismatch_err(Type::List(Box::new(Type::Unit)), args[0]), budget, logs)
        } else {
            let l = as_list(args[0])->Some_0;
            let b2 = charge(cm, fun, seq![const_seq_ex_mem(l.1)], budget);
            if exhausted(b2) {
                err_out(MachineError::OutOfBudget, b2, logs)
            } else {
                ok_out(ValueV::Con(ConstV::Bool(l.1.len() == 0)), b2, logs)
            }
        },
    }
}


/// The structural-data builtins: construction with element-type checks,
/// projection with variant checks, structural equality and variant
/// selection. `SerialiseData`'s encoding is deferred, so it is fatal.
pub open spec fn spec_data_group(
    cm: CostModel,
    fun: DefaultFunction,
    args: Seq<ValueV>,
    budget: (int, int),
    logs: Seq<Seq<char>>,
) -> CallOut {
    match fun {
        DefaultFunction::ChooseData => if as_data(args[0]) is None {
            err_out(mismatch_err(Type::Data, args[0]), budget, logs)
        } else {
            let d = as_data(args[0])->Some_0;
            let b2 = charge(
                cm,
                fun,
                seq![
                    data_ex_mem(d),
                    value_ex_mem(args[1]),
                    value_ex_mem(args[2]),
                    value_ex_mem(args[3]),
                    value_ex_mem(args[4]),
                    value_ex_mem(args[5]),
                ],
                budget,
            );
            if exhausted(b2) {
                err_out(MachineError::OutOfBudget, b2, logs)
            } else {
                match d {
                    DataV::Constr { tag, fields } => ok_out(args[1], b2, logs),
                    DataV::Mapping(_) => ok_out(args[2], b2, logs),
                    DataV::List(_) => ok_out(args[3], b2, logs),
                    DataV::Integer(_) => ok_out(args[4], b2, logs),
                    DataV::ByteString(_) => ok_out(args[5], b2, logs),
                }
            }
        },
        DefaultFunction::ConstrData => if as_int(args[0]) is None {
            err_out(mismatch_err(Type::Integer, args[0]), budget, logs)
        } else if as_list(args[1]) is None {
            err_out(mismatch_err(Type::List(Box::new(Type::Data)), args[1]), budget, logs)
        } else {
            let tag = as_int(args[0])->Some_0;
            let l = as_list(args[1])->Some_0;
            let b2 = charge(cm, fun, seq![int_ex_mem(tag), const_seq_ex_mem(l.1)], budget);
            if exhausted(b2) {
                err_out(MachineError::OutOfBudget, b2, logs)
            } else if l.0 != Type::Data {
                err_out(MachineError::TypeMismatch(Type::Data), b2, logs)
            } else if tag < 0 || tag > u64::MAX {
                err_out(MachineError::ConstrTagOutOfRange, b2, logs)
            } else {
                ok_out(
                    ValueV::Con(
                        ConstV::Data(DataV::Constr { tag: tag as nat, fields: datas_of(l.1) }),
                    ),
                    b2,
                    logs,
                )
            }
        },
        DefaultFunction::MapData => if as_list(args[0]) is None {
            err_out(
                mismatch_err(
                    Type::List(Box::new(Type::Pair(Box::new(Type::Data), Box::new(Type::Data)))),
                    args[0],
                ),
                budget,
                logs,
            )
        } else {
            let l = as_list(args[0])->Some_0;
            if l.0 != Type::Pair(Box::new(Type::Data), Box::new(Type::Data)) {
                err_out(
                    MachineError::TypeMismatch(
                        Type::List(
                            Box::new(Type::Pair(Box::new(Type::Data), Box::new(Type::Data))),
                        ),
                    ),
                    budget,
                    logs,
                )
            } else {
                let b2 = charge(cm, fun, seq![const_seq_ex_mem(l.1)], budget);
                if exhausted(b2) {
                    err_out(MachineError::OutOfBudget, b2, logs)
                } else {
                    ok_out(
                        ValueV::Con(ConstV::Data(DataV::Mapping(data_pairs_of(l.1)))),
                        b2,
                        logs,
                    )
                }
            }
        },
        DefaultFunction::ListData => if as_list(args[0]) is None {
            err_out(mismatch_err(Type::List(Box::new(Type::Data)), args[0]), budget, logs)
        } else {
            let l = as_list(args[0])->Some_0;
            let b2 = charge(cm, fun, seq![const_seq_ex_mem(l.1)], budget);
            if exhausted(b2) {
                err_out(MachineError::OutOfBudget, b2, logs)
            } else if l.0 != Type::Data {
                err_out(MachineError::TypeMismatch(Type::Data), b2, logs)
            } else {
                ok_out(ValueV::Con(ConstV::Data(DataV::List(datas_of(l.1)))), b2, logs)
            }
        },
        DefaultFunction::IData => if as_int(args[0]) is None {
            err_out(mismatch_err(Type::Integer, args[0]), budget, logs)
        } else {
            let x = as_int(args[0])->Some_0;
            let b2 = charge(cm, fun, seq![int_ex_mem(x)], budget);
            if exhausted(b2) {
                err_out(MachineError::OutOfBudget, b2, logs)
            } else {
                ok_out(ValueV::Con(ConstV::Data(DataV::Integer(x))), b2, logs)
            }
        },
        DefaultFunction::BData => if as_bytes(args[0]) is None {
            err_out(mismatch_err(Type::ByteString, args[0]), budget, logs)
        } else {
            let b = as_bytes(args[0])->Some_0;
            let b2 = charge(cm, fun, seq![bs_ex_mem(b)], budget);
            if exhausted(b2) {
                err_out(MachineError::OutOfBudget, b2, logs)
            } else {
                ok_out(ValueV::Con(ConstV::Data(DataV::ByteString(b))), b2, logs)
            }
        },
        DefaultFunction::UnConstrData => if as_data(args[0]) is None {
            err_out(mismatch_err(Type::Data, args[0]), budget, logs)
        } else {
            let d = as_data(args[0])->Some_0;
            if !(d is Constr) {
                err_out(MachineError::TypeMismatch(Type::Data), budget, logs)
            } else {
                let b2 = charge(cm, fun, seq![data_seq_ex_mem(d->Constr_fields)], budget);
                if exhausted(b2) {
                    err_out(MachineError::OutOfBudget, b2, logs)
                } else {
                    ok_out(
                        ValueV::Con(
                            ConstV::Pair(
                                Type::Integer,
                                Type::List(Box::new(Type::Data)),
                                Box::new(ConstV::Integer(d->Constr_tag as int)),
                                Box::new(
                                    ConstV::List(Type::Data, data_consts(d->Constr_fields)),
                                ),
                            ),
                        ),
                        b2,
                        logs,
                    )
                }
            }
        },
        DefaultFunction::UnMapData => if as_data(args[0]) is None {
            err_out(mismatch_err(Type::Data, args[0]), budget, logs)
        } else {
            let d = as_data(args[0])->Some_0;
            if !(d is Mapping) {
                err_out(MachineError::TypeMismatch(Type::Data), budget, logs)
            } else {
                let b2 = charge(cm, fun, seq![data_pairs_ex_mem(d->Mapping_0)], budget);
                if exhausted(b2) {
                    err_out(MachineError::OutOfBudget, b2, logs)
                } else {
                    ok_out(
                        ValueV::Con(
                            ConstV::List(
                                Type::Pair(Box::new(Type::Data), Box::new(Type::Data)),
                                data_pair_consts(d->Mapping_0),
                            ),
                        ),
                        b2,
                        logs,
                    )
                }
            }
        },
        DefaultFunction::UnListData => if as_data(args[0]) is None {
            err_out(mismatch_err(Type::Data, args[0]), budget, logs)
        } else {
            let d = as_data(args[0])->Some_0;
            if !(d is List) {
                err_out(MachineError::TypeMismatch(Type::Data), budget, logs)
            } else {
                let b2 = charge(cm, fun, seq![data_seq_ex_mem(d->List_0)], budget);
                if exhausted(b2) {
                    err_out(MachineError::OutOfBudget, b2, logs)
                } else {
                    ok_out(
                        ValueV::Con(ConstV::List(Type::Data, data_consts(d->List_0))),
                        b2,
                        logs,
                    )
                }
            }
        },
        DefaultFunction::UnIData => if as_data(args[0]) is None {
            err_out(mismatch_err(Type::Data, args[0]), budget, logs)
        } else {
            let d = as_data(args[0])->Some_0;
            if !(d is Integer) {
                err_out(MachineError::TypeMismatch(Type::Data), budget, logs)
            } else {
                let b2 = charge(cm, fun, seq![int_ex_mem(d->Integer_0)], budget);
                if exhausted(b2) {
                    err_out(MachineError::OutOfBudget, b2, logs)
                } else {
                    ok_out(ValueV::Con(ConstV::Integer(d->Integer_0)), b2, logs)
                }
            }
        },
        DefaultFunction::UnBData => if as_data(args[0]) is None {
            err_out(mismatch_err(Type::Data, args[0]), budget, logs)
        } else {
            let d = as_data(args[0])->Some_0;
            if !(d is ByteString) {
                err_out(MachineError::TypeMismatch(Type::Data), budget, logs)
            } else {
                let b2 = charge(cm, fun, seq![bs_ex_mem(d->ByteString_0)], budget);
                if exhausted(b2) {
                    err_out(MachineError::OutOfBudget, b2, logs)
                } else {
                    ok_out(ValueV::Con(ConstV::ByteString(d->ByteString_0)), b2, logs)
                }
            }
        },
        DefaultFunction::EqualsData => if as_data(args[0]) is None {
            err_out(mismatch_err(Type::Data, args[0]), budget, logs)
        } else if as_data(args[1]) is None {
            err_out(mismatch_err(Type::Data, args[1]), budget, logs)
        } else {
            let d1 = as_data(args[0])->Some_0;
            let d2 = as_data(args[1])->Some_0;
            let b2 = charge(cm, fun, seq![data_ex_mem(d1), data_ex_mem(d2)], budget);
            if exhausted(b2) {
                err_out(MachineError::OutOfBudget, b2, logs)
            } else {
                ok_out(ValueV::Con(ConstV::Bool(d1 == d2)), b2, logs)
            }
        },
        DefaultFunction::SerialiseData => if as_data(args[0]) is None {
            err_out(mismatch_err(Type::Data, args[0]), budget, logs)
        } else {
            err_out(MachineError::UnsupportedBuiltin, budget, logs)
        },
        DefaultFunction::MkPairData => if as_data(args[0]) is None {
            err_out(mismatch_err(Type::Data, args[0]), budget, logs)
        } else if as_data(args[1]) is None {
            err_out(mismatch_err(Type::Data, args[1]), budget, logs)
        } else {
            let d1 = as_data(args[0])->Some_0;
            let d2 = as_data(args[1])->Some_0;
            let b2 = charge(cm, fun, seq![data_ex_mem(d1), data_ex_mem(d2)], budget);
            if exhausted(b2) {
                err_out(MachineError::OutOfBudget, b2, logs)
            } else {
                ok_out(
                    ValueV::Con(
                        ConstV::Pair(
                            Type::Data,
                            Type::Data,
                            Box::new(ConstV::Data(d1)),
                            Box::new(ConstV::Data(d2)),
                        ),
                    ),
                    b2,
                    logs,
                )
            }
        },
        DefaultFunction::MkNilData => if !is_unit(args[0]) {
            err_out(mismatch_err(Type::Unit, args[0]), budget, logs)
        } else {
            let b2 = charge(cm, fun, seq![1], budget);
            if exhausted(b2) {
                err_out(MachineError::OutOfBudget, b2, logs)
            } else {
                ok_out(
                    ValueV::Con(ConstV::List(Type::Data, Seq::<ConstV>::empty())),
                    b2,
                    logs,
                )
            }
        },
        _ => if !is_unit(args[0]) {
            err_out(mismatch_err(Type::Unit, args[0]), budget, logs)
        } else {
            let b2 = charge(cm, fun, seq![1], budget);
            if exhausted(b2) {
                err_out(MachineError::OutOfBudget, b2, logs)
            } else {
                ok_out(
                    ValueV::Con(
                        ConstV::List(
                            Type::Pair(Box::new(Type::Data), Box::new(Type::Data)),
                            Seq::<ConstV>::empty(),
                        ),
                    ),
                    b2,
                    logs,
                )
            }
        },
    }
}

/// BLS12-381: group arithmetic over compressed encodings, whose uniqueness
/// makes group equality byte equality; scalars are reduced modulo the group
/// order; pairing accumulators multiply by collecting factors, consumed at
/// the final verification.
pub open spec fn spec_bls(
    cm: CostModel,
    fun: DefaultFunction,
    args: Seq<ValueV>,
    budget: (int, int),
    logs: Seq<Seq<char>>,
) -> CallOut {
    match fun {
        DefaultFunction::Bls12_381_G1_Add => if as_g1(args[0]) is None {
            err_out(mismatch_err(Type::G1Element, args[0]), budget, logs)
        } else if as_g1(args[1]) is None {
            err_out(mismatch_err(Type::G1Element, args[1]), budget, logs)
        } else {
            let a = as_g1(args[0])->Some_0;
            let b = as_g1(args[1])->Some_0;
            let b2 = charge(cm, fun, seq![18, 18], budget);
            if exhausted(b2) {
                err_out(MachineError::OutOfBudget, b2, logs)
            } else {
                ok_out(ValueV::Con(ConstV::G1Element(g1_add_of(a, b))), b2, logs)
            }
        },
        DefaultFunction::Bls12_381_G1_Neg => if as_g1(args[0]) is None {
            err_out(mismatch_err(Type::G1Element, args[0]), budget, logs)
        } else {
            let a = as_g1(args[0])->Some_0;
            let b2 = charge(cm, fun, seq![18], budget);
            if exhausted(b2) {
                err_out(MachineError::OutOfBudget, b2, logs)
            } else {
                ok_out(ValueV::Con(ConstV::G1Element(g1_neg_of(a))), b2, logs)
            }
        },
        DefaultFunction::Bls12_381_G1_ScalarMul => if as_int(args[0]) is None {
            err_out(mismatch_err(Type::Integer, args[0]), budget, logs)
        } else if as_g1(args[1]) is None {
            err_out(mismatch_err(Type::G1Element, args[1]), budget, logs)
        } else {
            let k = as_int(args[0])->Some_0;
            let p = as_g1(args[1])->Some_0;
            let b2 = charge(cm, fun, seq![int_ex_mem(k), 18], budget);
            if exhausted(b2) {
                err_out(MachineError::OutOfBudget, b2, logs)
            } else {
                ok_out(
                    ValueV::Con(ConstV::G1Element(g1_mul_of(fmod(k, scalar_period_val()), p))),
                    b2,
                    logs,
                )
            }
        },
        DefaultFunction::Bls12_381_G1_Equal => if as_g1(args[0]) is None {
            err_out(mismatch_err(Type::G1Element, args[0]), budget, logs)
        } else if as_g1(args[1]) is None {
            err_out(mismatch_err(Type::G1Element, args[1]), budget, logs)
        } else {
            let a = as_g1(args[0])->Some_0;
            let b = as_g1(args[1])->Some_0;
            let b2 = charge(cm, fun, seq![18, 18], budget);
            if exhausted(b2) {
                err_out(MachineError::OutOfBudget, b2, logs)
            } else {
                ok_out(ValueV::Con(ConstV::Bool(a == b)), b2, logs)
            }
        },
        DefaultFunction::Bls12_381_G1_Compress => if as_g1(args[0]) is None {
            err_out(mismatch_err(Type::G1Element, args[0]), budget, logs)
        } else {
            let a = as_g1(args[0])->Some_0;
            let b2 = charge(cm, fun, seq![18], budget);
            if exhausted(b2) {
                err_out(MachineError::OutOfBudget, b2, logs)
            } else {
                ok_out(ValueV::Con(ConstV::ByteString(a)), b2, logs)
            }
        },
        DefaultFunction::Bls12_381_G1_Uncompress => if as_bytes(args[0]) is None {
            err_out(mismatch_err(Type::ByteString, args[0]), budget, logs)
        } else {
            let a = as_bytes(args[0])->Some_0;
            let b2 = charge(cm, fun, seq![bs_ex_mem(a)], budget);
            if exhausted(b2) {
                err_out(MachineError::OutOfBudget, b2, logs)
            } else if a.len() == 48 && g1_ok(a) {
                ok_out(ValueV::Con(ConstV::G1Element(a)), b2, logs)
            } else {
                err_out(MachineError::BlsError, b2, logs)
            }
        },
        DefaultFunction::Bls12_381_G1_HashToGroup => if as_bytes(args[0]) is None {
            err_out(mismatch_err(Type::ByteString, args[0]), budget, logs)
        } else if as_bytes(args[1]) is None {
            err_out(mismatch_err(Type::ByteString, args[1]), budget, logs)
        } else {
            let msg = as_bytes(args[0])->Some_0;
            let dst = as_bytes(args[1])->Some_0;
            let b2 = charge(cm, fun, seq![bs_ex_mem(msg), bs_ex_mem(dst)], budget);
            if exhausted(b2) {
                err_out(MachineError::OutOfBudget, b2, logs)
            } else if dst.len() > 255 {
                err_out(MachineError::HashToCurveDstTooBig, b2, logs)
            } else {
                ok_out(ValueV::Con(ConstV::G1Element(g1_hash_of(msg, dst))), b2, logs)
            }
        },
        DefaultFunction::Bls12_381_G2_Add => if as_g2(args[0]) is None {
            err_out(mismatch_err(Type::G2Element, args[0]), budget, logs)
        } else if as_g2(args[1]) is None {
            err_out(mismatch_err(Type::G2Element, args[1]), budget, logs)
        } else {
            let a = as_g2(args[0])->Some_0;
            let b = as_g2(args[1])->Some_0;
            let b2 = charge(cm, fun, seq![36, 36], budget);
            if exhausted(b2) {
                err_out(MachineError::OutOfBudget, b2, logs)
            } else {
                ok_out(ValueV::Con(ConstV::G2Element(g2_add_of(a, b))), b2, logs)
            }
        },
        DefaultFunction::Bls12_381_G2_Neg => if as_g2(args[0]) is None {
            err_out(mismatch_err(Type::G2Element, args[0]), budget, logs)
        } else {
            let a = as_g2(args[0])->Some_0;
            let b2 = charge(cm, fun, seq![36], budget);
            if exhausted(b2) {
                err_out(MachineError::OutOfBudget, b2, logs)
            } else {
                ok_out(ValueV::Con(ConstV::G2Element(g2_neg_of(a))), b2, logs)
            }
        },
        DefaultFunction::Bls12_381_G2_ScalarMul => if as_int(args[0]) is None {
            err_out(mismatch_err(Type::Integer, args[0]), budget, logs)
        } else if as_g2(args[1]) is None {
            err_out(mismatch_err(Type::G2Element, args[1]), budget, logs)
        } else {
            let k = as_int(args[0])->Some_0;
            let p = as_g2(args[1])->Some_0;
            let b2 = charge(cm, fun, seq![int_ex_mem(k), 36], budget);
            if exhausted(b2) {
                err_out(MachineError::OutOfBudget, b2, logs)
            } else {
                ok_out(
                    ValueV::Con(ConstV::G2Element(g2_mul_of(fmod(k, scalar_period_val()), p))),
                    b2,
                    logs,
                )
            }
        },
        DefaultFunction::Bls12_381_G2_Equal => if as_g2(args[0]) is None {
            err_out(mismatch_err(Type::G2Element, args[0]), budget, logs)
        } else if as_g2(args[1]) is None {
            err_out(mismatch_err(Type::G2Element, args[1]), budget, logs)
        } else {
            let a = as_g2(args[0])->Some_0;
            let b = as_g2(args[1])->Some_0;
            let b2 = charge(cm, fun, seq![36, 36], budget);
            if exhausted(b2) {
                err_out(MachineError::OutOfBudget, b2, logs)
            } else {
                ok_out(ValueV::Con(ConstV::Bool(a == b)), b2, logs)
            }
        },
        DefaultFunction::Bls12_381_G2_Compress => if as_g2(args[0]) is None {
            err_out(mismatch_err(Type::G2Element, args[0]), budget, logs)
        } else {
            let a = as_g2(args[0])->Some_0;
            let b2 = charge(cm, fun, seq![36], budget);
            if exhausted(b2) {
                err_out(MachineError::OutOfBudget, b2, logs)
            } else {
                ok_out(ValueV::Con(ConstV::ByteString(a)), b2, logs)
            }
        },
        DefaultFunction::Bls12_381_G2_Uncompress => if as_bytes(args[0]) is None {
            err_out(mismatch_err(Type::ByteString, args[0]), budget, logs)
        } else {
            let a = as_bytes(args[0])->Some_0;
            let b2 = charge(cm, fun, seq![bs_ex_mem(a)], budget);
            if exhausted(b2) {
                err_out(MachineError::OutOfBudget, b2, logs)
            } else if a.len() == 96 && g2_ok(a) {
                ok_out(ValueV::Con(ConstV::G2Element(a)), b2, logs)
            } else {
                err_out(MachineError::BlsError, b2, logs)
            }
        },
        DefaultFunction::Bls12_381_G2_HashToGroup => if as_bytes(args[0]) is None {
            err_out(mismatch_err(Type::ByteString, args[0]), budget, logs)
        } else if as_bytes(args[1]) is None {
            err_out(mismatch_err(Type::ByteString, args[1]), budget, logs)
        } else {
            let msg = as_bytes(args[0])->Some_0;
            let dst = as_bytes(args[1])->Some_0;
            let b2 = charge(cm, fun, seq![bs_ex_mem(msg), bs_ex_mem(dst)], budget);
            if exhausted(b2) {
                err_out(MachineError::OutOfBudget, b2, logs)
            } else if dst.len() > 255 {
                err_out(MachineError::HashToCurveDstTooBig, b2, logs)
            } else {
                ok_out(ValueV::Con(ConstV::G2Element(g2_hash_of(msg, dst))), b2, logs)
            }
        },
        DefaultFunction::Bls12_381_MillerLoop => if as_g1(args[0]) is None {
            err_out(mismatch_err(Type::G1Element, args[0]), budget, logs)
        } else if as_g2(args[1]) is None {
            err_out(mismatch_err(Type::G2Element, args[1]), budget, logs)
        } else {
            let a = as_g1(args[0])->Some_0;
            let b = as_g2(args[1])->Some_0;
            let b2 = charge(cm, fun, seq![18, 36], budget);
            if exhausted(b2) {
                err_out(MachineError::OutOfBudget, b2, logs)
            } else {
                ok_out(ValueV::Con(ConstV::MlResult(seq![(a, b)])), b2, logs)
            }
        },
        DefaultFunction::Bls12_381_MulMlResult => if as_ml(args[0]) is None {
            err_out(mismatch_err(Type::MlResult, args[0]), budget, logs)
        } else if as_ml(args[1]) is None {
            err_out(mismatch_err(Type::MlResult, args[1]), budget, logs)
        } else {
            let xs = as_ml(args[0])->Some_0;
            let ys = as_ml(args[1])->Some_0;
            let b2 = charge(cm, fun, seq![72, 72], budget);
            if exhausted(b2) {
                err_out(MachineError::OutOfBudget, b2, logs)
            } else {
                ok_out(ValueV::Con(ConstV::MlResult(xs + ys)), b2, logs)
            }
        },
        _ => if as_ml(args[0]) is None {
            err_out(mismatch_err(Type::MlResult, args[0]), budget, logs)
        } else if as_ml(args[1]) is None {
            err_out(mismatch_err(Type::MlResult, args[1]), budget, logs)
        } else {
            let xs = as_ml(args[0])->Some_0;
            let ys = as_ml(args[1])->Some_0;
            let b2 = charge(cm, fun, seq![72, 72], budget);
            if exhausted(b2) {
                err_out(MachineError::OutOfBudget, b2, logs)
            } else {
                ok_out(ValueV::Con(ConstV::Bool(ml_final_verify(xs, ys))), b2, logs)
            }
        },
    }
}

/// The bitstring suite: conversions between integers and byte strings,
/// padded or truncated bitwise combination, bit-indexed reads and writes,
/// shifts and rotations, and population counts.
pub open spec fn spec_bits_group(
    cm: CostModel,
    fun: DefaultFunction,
    args: Seq<ValueV>,
    budget: (int, int),
    logs: Seq<Seq<char>>,
) -> CallOut {
    match fun {
        DefaultFunction::IntegerToByteString => if as_bool(args[0]) is None {
            err_out(mismatch_err(Type::Bool, args[0]), budget, logs)
        } else if as_int(args[1]) is None {
            err_out(mismatch_err(Type::Integer, args[1]), budget, logs)
        } else if as_int(args[2]) is None {
            err_out(mismatch_err(Type::Integer, args[2]), budget, logs)
        } else {
            let big_endian = as_bool(args[0])->Some_0;
            let size = as_int(args[1])->Some_0;
            let input = as_int(args[2])->Some_0;
            if size < 0 {
                err_out(MachineError::IntegerToByteStringNegativeSize, budget, logs)
            } else if size > 8192 {
                err_out(MachineError::IntegerToByteStringSizeTooBig, budget, logs)
            } else {
                let b2 = charge(
                    cm,
                    fun,
                    seq![1, size_ex_mem(size), int_ex_mem(input)],
                    budget,
                );
                if exhausted(b2) {
                    err_out(MachineError::OutOfBudget, b2, logs)
                } else if size == 0 && byte_len(abs_int(input) as nat) > 8192 {
                    err_out(MachineError::IntegerToByteStringSizeTooBig, b2, logs)
                } else if input < 0 {
                    err_out(MachineError::IntegerToByteStringNegativeInput, b2, logs)
                } else if input == 0 {
                    ok_out(
                        ValueV::Con(
                            ConstV::ByteString(Seq::new(size as nat, |i: int| 0u8)),
                        ),
                        b2,
                        logs,
                    )
                } else {
                    let bytes = if big_endian {
                        be_bytes_of(input as nat)
                    } else {
                        be_bytes_of(input as nat).reverse()
                    };
                    if size != 0 && bytes.len() > size {
                        err_out(MachineError::IntegerToByteStringSizeTooSmall, b2, logs)
                    } else {
                        let pad = Seq::new((size - bytes.len()) as nat, |i: int| 0u8);
                        let padded = if size == 0 {
                            bytes
                        } else if big_endian {
                            pad + bytes
                        } else {
                            bytes + pad
                        };
                        ok_out(ValueV::Con(ConstV::ByteString(padded)), b2, logs)
                    }
                }
            }
        },
        DefaultFunction::ByteStringToInteger => if as_bool(args[0]) is None {
            err_out(mismatch_err(Type::Bool, args[0]), budget, logs)
        } else if as_bytes(args[1]) is None {
            err_out(mismatch_err(Type::ByteString, args[1]), budget, logs)
        } else {
            let big_endian = as_bool(args[0])->Some_0;
            let b = as_bytes(args[1])->Some_0;
            let b2 = charge(cm, fun, seq![1, bs_ex_mem(b)], budget);
            if exhausted(b2) {
                err_out(MachineError::OutOfBudget, b2, logs)
            } else if big_endian {
                ok_out(ValueV::Con(ConstV::Integer(be_val(b) as int)), b2, logs)
            } else {
                ok_out(ValueV::Con(ConstV::Integer(le_val(b) as int)), b2, logs)
            }
        },
        DefaultFunction::AndByteString => spec_bitwise(cm, fun, args, budget, logs),
        DefaultFunction::OrByteString => spec_bitwise(cm, fun, args, budget, logs),
        DefaultFunction::XorByteString => spec_bitwise(cm, fun, args, budget, logs),
        DefaultFunction::ComplementByteString => if as_bytes(args[0]) is None {
            err_out(mismatch_err(Type::ByteString, args[0]), budget, logs)
        } else {
            let b = as_bytes(args[0])->Some_0;
            let b2 = charge(cm, fun, seq![bs_ex_mem(b)], budget);
            if exhausted(b2) {
                err_out(MachineError::OutOfBudget, b2, logs)
            } else {
                ok_out(
                    ValueV::Con(
                        ConstV::ByteString(Seq::new(b.len(), |i: int| b[i] ^ 0xFF)),
                    ),
                    b2,
                    logs,
                )
            }
        },
        DefaultFunction::ReadBit => if as_bytes(args[0]) is None {
            err_out(mismatch_err(Type::ByteString, args[0]), budget, logs)
        } else if as_int(args[1]) is None {
            err_out(mismatch_err(Type::Integer, args[1]), budget, logs)
        } else {
            let b = as_bytes(args[0])->Some_0;
            let j = as_int(args[1])->Some_0;
            let b2 = charge(cm, fun, seq![bs_ex_mem(b), int_ex_mem(j)], budget);
            if exhausted(b2) {
                err_out(MachineError::OutOfBudget, b2, logs)
            } else if b.len() == 0 {
                err_out(MachineError::EmptyByteArray, b2, logs)
            } else if j < 0 || j >= 8 * b.len() {
                err_out(MachineError::ReadBitOutOfBounds, b2, logs)
            } else {
                ok_out(ValueV::Con(ConstV::Bool(bit_at(b, j))), b2, logs)
            }
        },
        DefaultFunction::WriteBits => if as_bytes(args[0]) is None {
            err_out(mismatch_err(Type::ByteString, args[0]), budget, logs)
        } else if as_list(args[1]) is None || (as_list(args[1])->Some_0).0 != Type::Integer {
            err_out(
                mismatch_err(Type::List(Box::new(Type::Integer)), args[1]),
                budget,
                logs,
            )
        } else if as_bool(args[2]) is None {
            err_out(mismatch_err(Type::Bool, args[2]), budget, logs)
        } else {
            let b = as_bytes(args[0])->Some_0;
            let l = as_list(args[1])->Some_0;
            let bit = as_bool(args[2])->Some_0;
            let ixs = ints_of(l.1);
            let b2 = charge(
                cm,
                fun,
                seq![bs_ex_mem(b), const_seq_ex_mem(l.1), 1],
                budget,
            );
            if exhausted(b2) {
                err_out(MachineError::OutOfBudget, b2, logs)
            } else if first_oob(ixs, 8 * b.len() as int) is Some {
                err_out(MachineError::WriteBitsOutOfBounds, b2, logs)
            } else {
                ok_out(
                    ValueV::Con(ConstV::ByteString(write_bits_seq(b, ixs, bit))),
                    b2,
                    logs,
                )
            }
        },
        DefaultFunction::ReplicateByte => if as_int(args[0]) is None {
            err_out(mismatch_err(Type::Integer, args[0]), budget, logs)
        } else if as_int(args[1]) is None {
            err_out(mismatch_err(Type::Integer, args[1]), budget, logs)
        } else {
            let size = as_int(args[0])->Some_0;
            let byte = as_int(args[1])->Some_0;
            if size < 0 {
                err_out(MachineError::ReplicateByteNegativeSize, budget, logs)
            } else if size > 8192 {
                err_out(MachineError::ReplicateByteSizeTooBig, budget, logs)
            } else {
                let b2 = charge(cm, fun, seq![size_ex_mem(size), int_ex_mem(byte)], budget);
                if exhausted(b2) {
                    err_out(MachineError::OutOfBudget, b2, logs)
                } else if size == 0 && byte_len(abs_int(byte) as nat) > 8192 {
                    err_out(MachineError::ReplicateByteSizeTooBig, b2, logs)
                } else if byte < 0 {
                    err_out(MachineError::ReplicateByteNegativeInput, b2, logs)
                } else if byte > 255 {
                    err_out(MachineError::OutsideByteBounds, b2, logs)
                } else {
                    ok_out(
                        ValueV::Con(
                            ConstV::ByteString(Seq::new(size as nat, |i: int| byte as u8)),
                        ),
                        b2,
                        logs,
                    )
                }
            }
        },
        DefaultFunction::ShiftByteString => if as_bytes(args[0]) is None {
            err_out(mismatch_err(Type::ByteString, args[0]), budget, logs)
        } else if as_int(args[1]) is None {
            err_out(mismatch_err(Type::Integer, args[1]), budget, logs)
        } else {
            let b = as_bytes(args[0])->Some_0;
            let n = as_int(args[1])->Some_0;
            let b2 = charge(cm, fun, seq![bs_ex_mem(b), shift_ex_mem(n)], budget);
            if exhausted(b2) {
                err_out(MachineError::OutOfBudget, b2, logs)
            } else if abs_int(n) >= 8 * b.len() {
                ok_out(
                    ValueV::Con(ConstV::ByteString(Seq::new(b.len(), |i: int| 0u8))),
                    b2,
                    logs,
                )
            } else {
                ok_out(
                    ValueV::Con(
                        ConstV::ByteString(
                            bits_to_bytes(
                                b.len(),
                                |j: int| 0 <= j - n < 8 * b.len() && bit_at(b, j - n),
                            ),
                        ),
                    ),
                    b2,
                    logs,
                )
            }
        },
        DefaultFunction::RotateByteString => if as_bytes(args[0]) is None {
            err_out(mismatch_err(Type::ByteString, args[0]), budget, logs)
        } else if as_int(args[1]) is None {
            err_out(mismatch_err(Type::Integer, args[1]), budget, logs)
        } else {
            let b = as_bytes(args[0])->Some_0;
            let n = as_int(args[1])->Some_0;
            let b2 = charge(cm, fun, seq![bs_ex_mem(b), shift_ex_mem(n)], budget);
            if exhausted(b2) {
                err_out(MachineError::OutOfBudget, b2, logs)
            } else if b.len() == 0 {
                ok_out(ValueV::Con(ConstV::ByteString(b)), b2, logs)
            } else {
                let r = fmod(n, 8 * b.len() as int);
                if r == 0 {
                    ok_out(ValueV::Con(ConstV::ByteString(b)), b2, logs)
                } else {
                    ok_out(
                        ValueV::Con(
                            ConstV::ByteString(
                                bits_to_bytes(
                                    b.len(),
                                    |j: int| bit_at(b, (j - r) % (8 * b.len() as int)),
                                ),
                            ),
                        ),
                        b2,
                        logs,
                    )
                }
            }
        },
        DefaultFunction::CountSetBits => if as_bytes(args[0]) is None {
            err_out(mismatch_err(Type::ByteString, args[0]), budget, logs)
        } else {
            let b = as_bytes(args[0])->Some_0;
            let b2 = charge(cm, fun, seq![bs_ex_mem(b)], budget);
            if exhausted(b2) {
                err_out(MachineError::OutOfBudget, b2, logs)
            } else {
                ok_out(ValueV::Con(ConstV::Integer(count_ones(b) as int)), b2, logs)
            }
        },
        _ => if as_bytes(args[0]) is None {
            err_out(mismatch_err(Type::ByteString, args[0]), budget, logs)
        } else {
            let b = as_bytes(args[0])->Some_0;
            let b2 = charge(cm, fun, seq![bs_ex_mem(b)], budget);
            if exhausted(b2) {
                err_out(MachineError::OutOfBudget, b2, logs)
            } else {
                ok_out(ValueV::Con(ConstV::Integer(ffs_from(b, 0))), b2, logs)
            }
        },
    }
}

/// Padded or truncated bitwise AND, OR and XOR.
pub open spec fn spec_bitwise(
    cm: CostModel,
    fun: DefaultFunction,
    args: Seq<ValueV>,
    budget: (int, int),
    logs: Seq<Seq<char>>,
) -> CallOut {
    if as_bool(args[0]) is None {
        err_out(mismatch_err(Type::Bool, args[0]), budget, logs)
    } else if as_bytes(args[1]) is None {
        err_out(mismatch_err(Type::ByteString, args[1]), budget, logs)
    } else if as_bytes(args[2]) is None {
        err_out(mismatch_err(Type::ByteString, args[2]), budget, logs)
    } else {
        let pad = as_bool(args[0])->Some_0;
        let a = as_bytes(args[1])->Some_0;
        let b = as_bytes(args[2])->Some_0;
        let b2 = charge(cm, fun, seq![1, bs_ex_mem(a), bs_ex_mem(b)], budget);
        if exhausted(b2) {
            err_out(MachineError::OutOfBudget, b2, logs)
        } else {
            let n = zip_len(pad, a, b);
            let out = match fun {
                DefaultFunction::AndByteString => Seq::new(
                    n,
                    |i: int| get_or(a, i, 0xFF) & get_or(b, i, 0xFF),
                ),
                DefaultFunction::OrByteString => Seq::new(
                    n,
                    |i: int| get_or(a, i, 0x00) | get_or(b, i, 0x00),
                ),
                _ => Seq::new(n, |i: int| get_or(a, i, 0x00) ^ get_or(b, i, 0x00)),
            };
            ok_out(ValueV::Con(ConstV::ByteString(out)), b2, logs)
        }
    }
}


pub open spec fn budget_view(b: ExBudget) -> (int, int) {
    (b.cpu as int, b.mem as int)
}

pub open spec fn logs_view(l: Seq<String>) -> Seq<Seq<char>> {
    Seq::new(l.len(), |i: int| l[i]@)
}

pub open spec fn vals_view(s: Seq<Value>) -> Seq<ValueV> {
    Seq::new(
        s.len(),
        |i: int|
            if 0 <= i < s.len() {
                value_view(s[i])
            } else {
                ValueV::Con(ConstV::Unit)
            },
    )
}

/// Every gathered argument is well-formed, at both levels.
pub open spec fn wf_args(s: Seq<Value>) -> bool {
    forall|i: int|
        0 <= i < s.len() ==> wf_value_exec(#[trigger] s[i]) && wf_valuev(value_view(s[i]))
}

fn sub_sat_i64(a: i64, c: i64) -> (r: i64)
    requires
        c >= 0,
    ensures
        r == sat_sub1(a as int, c as int),
{
    if a < i64::MIN + c {
        i64::MIN
    } else {
        a - c
    }
}

/// Debits one cost from the remaining budget, saturating at the floor; a
/// negative component after the debit is fatal.
pub fn spend_budget(budget: &mut ExBudget, cost: ExBudget) -> (r: Result<(), MachineError>)
    requires
        cost.non_negative(),
    ensures
        budget_view(*final(budget)) == spec_spend(budget_view(*old(budget)), budget_view(cost)),
        r is Ok <==> !exhausted(budget_view(*final(budget))),
        r is Err ==> r->Err_0 == MachineError::OutOfBudget,
{
    budget.cpu = sub_sat_i64(budget.cpu, cost.cpu);
    budget.mem = sub_sat_i64(budget.mem, cost.mem);
    if budget.cpu < 0 || budget.mem < 0 {
        Err(MachineError::OutOfBudget)
    } else {
        Ok(())
    }
}

/// Looks the cost of this dispatch up and debits it.
fn charge_exec(
    costs: &CostModel,
    budget: &mut ExBudget,
    fun: DefaultFunction,
    ems: &Vec<i64>,
) -> (r: Result<(), MachineError>)
    requires
        costs.wf(),
        forall|i: int| 0 <= i < ems@.len() ==> ems@[i] >= 0,
    ensures
        budget_view(*final(budget)) == charge(
            *costs,
            fun,
            ems@.map_values(|v: i64| v as int),
            budget_view(*old(budget)),
        ),
        r is Ok <==> !exhausted(budget_view(*final(budget))),
        r is Err ==> r->Err_0 == MachineError::OutOfBudget,
{
    let c = costs.builtin_cost(fun, ems);
    proof {
        assert(clamp0(
            costs.spec_builtin_cost(fun, ems@.map_values(|v: i64| v as int)),
        ) == costs.spec_builtin_cost(fun, ems@.map_values(|v: i64| v as int)));
    }
    spend_budget(budget, c)
}

fn ems1(a: i64) -> (r: Vec<i64>)
    ensures
        r@ == seq![a],
        r@.map_values(|v: i64| v as int) == seq![a as int],
{
    let mut r: Vec<i64> = Vec::new();
    r.push(a);
    proof {
        assert(r@ =~= seq![a]);
        assert(r@.map_values(|v: i64| v as int) =~= seq![a as int]);
    }
    r
}

fn ems2(a: i64, b: i64) -> (r: Vec<i64>)
    ensures
        r@ == seq![a, b],
        r@.map_values(|v: i64| v as int) == seq![a as int, b as int],
{
    let mut r: Vec<i64> = Vec::new();
    r.push(a);
    r.push(b);
    proof {
        assert(r@ =~= seq![a, b]);
        assert(r@.map_values(|v: i64| v as int) =~= seq![a as int, b as int]);
    }
    r
}

fn ems3(a: i64, b: i64, c: i64) -> (r: Vec<i64>)
    ensures
        r@ == seq![a, b, c],
        r@.map_values(|v: i64| v as int) == seq![a as int, b as int, c as int],
{
    let mut r: Vec<i64> = Vec::new();
    r.push(a);
    r.push(b);
    r.push(c);
    proof {
        assert(r@ =~= seq![a, b, c]);
        assert(r@.map_values(|v: i64| v as int) =~= seq![a as int, b as int, c as int]);
    }
    r
}

fn ems6(a: i64, b: i64, c: i64, d: i64, e: i64, f: i64) -> (r: Vec<i64>)
    ensures
        r@ == seq![a, b, c, d, e, f],
        r@.map_values(|v: i64| v as int) == seq![
            a as int,
            b as int,
            c as int,
            d as int,
            e as int,
            f as int,
        ],
{
    let mut r: Vec<i64> = Vec::new();
    r.push(a);
    r.push(b);
    r.push(c);
    r.push(d);
    r.push(e);
    r.push(f);
    proof {
        assert(r@ =~= seq![a, b, c, d, e, f]);
        assert(r@.map_values(|v: i64| v as int) =~= seq![
            a as int,
            b as int,
            c as int,
            d as int,
            e as int,
            f as int,
        ]);
    }
    r
}

fn arg_integer<'a>(v: &'a Value) -> (r: Result<&'a BigNum, MachineError>)
    requires
        wf_value_exec(*v),
    ensures
        match r {
            Ok(n) => as_int(value_view(*v)) == Some(n.val()) && n.wf(),
            Err(e) => as_int(value_view(*v)) is None && e == mismatch_err(
                Type::Integer,
                value_view(*v),
            ),
        },
{
    proof {
        lemma_value_unfold(v);
    }
    match v {
        Value::Con(c) => {
            proof {
                lemma_const_view_unfold(&**c);
                lemma_wf_const_unfold(&**c);
            }
            match &**c {
                Constant::Integer(n) => Ok(n),
                _ => Err(MachineError::TypeMismatch(Type::Integer)),
            }
        },
        _ => Err(MachineError::NotAConstant),
    }
}

fn arg_bytes<'a>(v: &'a Value) -> (r: Result<&'a Vec<u8>, MachineError>)
    requires
        wf_value_exec(*v),
    ensures
        match r {
            Ok(b) => as_bytes(value_view(*v)) == Some(b@),
            Err(e) => as_bytes(value_view(*v)) is None && e == mismatch_err(
                Type::ByteString,
                value_view(*v),
            ),
        },
{
    proof {
        lemma_value_unfold(v);
    }
    match v {
        Value::Con(c) => {
            proof {
                lemma_const_view_unfold(&**c);
            }
            match &**c {
                Constant::ByteString(b) => Ok(b),
                _ => Err(MachineError::TypeMismatch(Type::ByteString)),
            }
        },
        _ => Err(MachineError::NotAConstant),
    }
}

fn arg_string<'a>(v: &'a Value) -> (r: Result<&'a String, MachineError>)
    requires
        wf_value_exec(*v),
    ensures
        match r {
            Ok(s) => as_str(value_view(*v)) == Some(s@),
            Err(e) => as_str(value_view(*v)) is None && e == mismatch_err(
                Type::String,
                value_view(*v),
            ),
        },
{
    proof {
        lemma_value_unfold(v);
    }
    match v {
        Value::Con(c) => {
            proof {
                lemma_const_view_unfold(&**c);
            }
            match &**c {
                Constant::String(s) => Ok(s),
                _ => Err(MachineError::TypeMismatch(Type::String)),
            }
        },
        _ => Err(MachineError::NotAConstant),
    }
}

fn arg_bool(v: &Value) -> (r: Result<bool, MachineError>)
    requires
        wf_value_exec(*v),
    ensures
        match r {
            Ok(b) => as_bool(value_view(*v)) == Some(b),
            Err(e) => as_bool(value_view(*v)) is None && e == mismatch_err(
                Type::Bool,
                value_view(*v),
            ),
        },
{
    proof {
        lemma_value_unfold(v);
    }
    match v {
        Value::Con(c) => {
            proof {
                lemma_const_view_unfold(&**c);
            }
            match &**c {
                Constant::Bool(b) => Ok(*b),
                _ => Err(MachineError::TypeMismatch(Type::Bool)),
            }
        },
        _ => Err(MachineError::NotAConstant),
    }
}

fn arg_unit(v: &Value) -> (r: Result<(), MachineError>)
    requires
        wf_value_exec(*v),
    ensures
        match r {
            Ok(_) => is_unit(value_view(*v)),
            Err(e) => !is_unit(value_view(*v)) && e == mismatch_err(Type::Unit, value_view(*v)),
        },
{
    proof {
        lemma_value_unfold(v);
    }
    match v {
        Value::Con(c) => {
            proof {
                lemma_const_view_unfold(&**c);
            }
            match &**c {
                Constant::Unit => Ok(()),
                _ => Err(MachineError::TypeMismatch(Type::Unit)),
            }
        },
        _ => Err(MachineError::NotAConstant),
    }
}

fn arg_constant<'a>(v: &'a Value) -> (r: Result<&'a Constant, MachineError>)
    requires
        wf_value_exec(*v),
    ensures
        match r {
            Ok(c) => as_con(value_view(*v)) == Some(crate::constant::const_view(*c))
                && wf_const_exec(*c),
            Err(e) => as_con(value_view(*v)) is None && e == MachineError::NotAConstant,
        },
{
    proof {
        lemma_value_unfold(v);
    }
    match v {
        Value::Con(c) => Ok(&**c),
        _ => Err(MachineError::NotAConstant),
    }
}

fn arg_list<'a>(v: &'a Value, expected: Type) -> (r: Result<
    (&'a Type, &'a Vec<Constant>),
    MachineError,
>)
    requires
        wf_value_exec(*v),
    ensures
        match r {
            Ok(p) => {
                let l = as_list(value_view(*v));
                &&& l is Some
                &&& l->Some_0.0 == *p.0
                &&& l->Some_0.1.len() == p.1@.len()
                &&& forall|i: int|
                    0 <= i < p.1@.len() ==> l->Some_0.1[i] == crate::constant::const_view(
                        #[trigger] p.1@[i],
                    )
                &&& forall|i: int| 0 <= i < p.1@.len() ==> wf_const_exec(#[trigger] p.1@[i])
            },
            Err(e) => as_list(value_view(*v)) is None && e == mismatch_err(
                Type::List(Box::new(expected)),
                value_view(*v),
            ),
        },
{
    proof {
        lemma_value_unfold(v);
    }
    match v {
        Value::Con(c) => {
            proof {
                lemma_const_view_unfold(&**c);
                lemma_wf_const_unfold(&**c);
            }
            match &**c {
                Constant::ProtoList(t, items) => Ok((t, items)),
                _ => Err(MachineError::TypeMismatch(Type::List(Box::new(expected)))),
            }
        },
        _ => Err(MachineError::NotAConstant),
    }
}

fn arg_pair<'a>(v: &'a Value) -> (r: Result<
    (&'a Type, &'a Type, &'a Constant, &'a Constant),
    MachineError,
>)
    requires
        wf_value_exec(*v),
    ensures
        match r {
            Ok(p) => {
                let q = as_pair(value_view(*v));
                &&& q is Some
                &&& q->Some_0.0 == *p.0
                &&& q->Some_0.1 == *p.1
                &&& q->Some_0.2 == crate::constant::const_view(*p.2)
                &&& q->Some_0.3 == crate::constant::const_view(*p.3)
                &&& wf_const_exec(*p.2)
                &&& wf_const_exec(*p.3)
            },
            Err(e) => as_pair(value_view(*v)) is None && e == mismatch_err(
                Type::Pair(Box::new(Type::Unit), Box::new(Type::Unit)),
                value_view(*v),
            ),
        },
{
    proof {
        lemma_value_unfold(v);
    }
    match v {
        Value::Con(c) => {
            proof {
                lemma_const_view_unfold(&**c);
                lemma_wf_const_unfold(&**c);
            }
            match &**c {
                Constant::ProtoPair(t1, t2, a, b) => Ok((t1, t2, &**a, &**b)),
                _ => Err(
                    MachineError::TypeMismatch(
                        Type::Pair(Box::new(Type::Unit), Box::new(Type::Unit)),
                    ),
                ),
            }
        },
        _ => Err(MachineError::NotAConstant),
    }
}

fn arg_data<'a>(v: &'a Value) -> (r: Result<&'a PlutusData, MachineError>)
    requires
        wf_value_exec(*v),
    ensures
        match r {
            Ok(d) => as_data(value_view(*v)) == Some(crate::constant::data_view(*d))
                && crate::constant::wf_data_exec(*d),
            Err(e) => as_data(value_view(*v)) is None && e == mismatch_err(
                Type::Data,
                value_view(*v),
            ),
        },
{
    proof {
        lemma_value_unfold(v);
    }
    match v {
        Value::Con(c) => {
            proof {
                lemma_const_view_unfold(&**c);
                lemma_wf_const_unfold(&**c);
            }
            match &**c {
                Constant::Data(d) => Ok(d),
                _ => Err(MachineError::TypeMismatch(Type::Data)),
            }
        },
        _ => Err(MachineError::NotAConstant),
    }
}

fn arg_g1<'a>(v: &'a Value) -> (r: Result<&'a Vec<u8>, MachineError>)
    requires
        wf_value_exec(*v),
    ensures
        match r {
            Ok(b) => as_g1(value_view(*v)) == Some(b@),
            Err(e) => as_g1(value_view(*v)) is None && e == mismatch_err(
                Type::G1Element,
                value_view(*v),
            ),
        },
{
    proof {
        lemma_value_unfold(v);
    }
    match v {
        Value::Con(c) => {
            proof {
                lemma_const_view_unfold(&**c);
            }
            match &**c {
                Constant::G1Element(b) => Ok(b),
                _ => Err(MachineError::TypeMismatch(Type::G1Element)),
            }
        },
        _ => Err(MachineError::NotAConstant),
    }
}

fn arg_g2<'a>(v: &'a Value) -> (r: Result<&'a Vec<u8>, MachineError>)
    requires
        wf_value_exec(*v),
    ensures
        match r {
            Ok(b) => as_g2(value_view(*v)) == Some(b@),
            Err(e) => as_g2(value_view(*v)) is None && e == mismatch_err(
                Type::G2Element,
                value_view(*v),
            ),
        },
{
    proof {
        lemma_value_unfold(v);
    }
    match v {
        Value::Con(c) => {
            proof {
                lemma_const_view_unfold(&**c);
            }
            match &**c {
                Constant::G2Element(b) => Ok(b),
                _ => Err(MachineError::TypeMismatch(Type::G2Element)),
            }
        },
        _ => Err(MachineError::NotAConstant),
    }
}

fn arg_ml<'a>(v: &'a Value) -> (r: Result<&'a Vec<(Vec<u8>, Vec<u8>)>, MachineError>)
    requires
        wf_value_exec(*v),
    ensures
        match r {
            Ok(fs) => as_ml(value_view(*v)) == Some(crate::bls::ml_view(fs@)),
            Err(e) => as_ml(value_view(*v)) is None && e == mismatch_err(
                Type::MlResult,
                value_view(*v),
            ),
        },
{
    proof {
        lemma_value_unfold(v);
    }
    match v {
        Value::Con(c) => {
            proof {
                lemma_const_view_unfold(&**c);
                assert(**c is MlResult ==> crate::constant::const_view(**c)->MlResult_0
                    =~= crate::bls::ml_view(c->MlResult_0@));
            }
            match &**c {
                Constant::MlResult(fs) => Ok(fs),
                _ => Err(MachineError::TypeMismatch(Type::MlResult)),
            }
        },
        _ => Err(MachineError::NotAConstant),
    }
}

/// Wraps a constant as the returned value.
fn con_value(c: Constant) -> (r: Value)
    requires
        wf_const_exec(c),
    ensures
        value_view(r) == ValueV::Con(crate::constant::const_view(c)),
        wf_value_exec(r),
{
    let r = Value::Con(Rc::new(c));
    proof {
        lemma_value_unfold(&r);
    }
    r
}

fn str_ex_mem_exec(s: &String) -> (r: i64)
    ensures
        r == str_ex_mem(s@),
        r >= 0,
{
    let n: u64 = char_count(s) as u64;
    if n > 0x7fff_ffff_ffff_ffff_u64 {
        i64::MAX
    } else {
        n as i64
    }
}

fn value_ex_mem_exec(v: &Value) -> (r: i64)
    requires
        wf_value_exec(*v),
    ensures
        r == value_ex_mem(value_view(*v)),
        r >= 0,
{
    proof {
        lemma_value_unfold(v);
    }
    match v {
        Value::Con(c) => const_ex_mem_exec(&**c),
        _ => 1,
    }
}


/// The integer builtins, executed; proved against `spec_int_bin`.
fn call_int(
    costs: &CostModel,
    budget: &mut ExBudget,
    logs: &mut Vec<String>,
    fun: DefaultFunction,
    args: &Vec<Value>,
) -> (r: Result<Value, MachineError>)
    requires
        costs.wf(),
        fun == DefaultFunction::AddInteger || fun == DefaultFunction::SubtractInteger || fun
            == DefaultFunction::MultiplyInteger || fun == DefaultFunction::DivideInteger || fun
            == DefaultFunction::QuotientInteger || fun == DefaultFunction::RemainderInteger || fun
            == DefaultFunction::ModInteger || fun == DefaultFunction::EqualsInteger || fun
            == DefaultFunction::LessThanInteger || fun == DefaultFunction::LessThanEqualsInteger,
        args@.len() == fun.spec_arity(),
        wf_args(args@),
    ensures
        ({
            let out = spec_int_bin(
                *costs,
                fun,
                vals_view(args@),
                budget_view(*old(budget)),
                logs_view(old(logs)@),
            );
            &&& budget_view(*final(budget)) == out.budget
            &&& logs_view(final(logs)@) == out.logs
            &&& match (r, out.res) {
                (Ok(v), Ok(vv)) => value_view(v) == vv && wf_value_exec(v) && wf_valuev(vv),
                (Err(e), Err(ee)) => e == ee,
                _ => false,
            }
        }),
{
    proof {
        assert(vals_view(args@)[0] == value_view(args@[0]));
        assert(vals_view(args@)[1] == value_view(args@[1]));
    }
    let x = match arg_integer(&args[0]) {
        Ok(n) => n,
        Err(e) => {
            return Err(e);
        },
    };
    let y = match arg_integer(&args[1]) {
        Ok(n) => n,
        Err(e) => {
            return Err(e);
        },
    };
    let ems = ems2(x.ex_mem(), y.ex_mem());
    if let Err(e) = charge_exec(costs, budget, fun, &ems) {
        return Err(e);
    }
    match fun {
        DefaultFunction::AddInteger => Ok(con_value(Constant::Integer(x.plus(y)))),
        DefaultFunction::SubtractInteger => Ok(con_value(Constant::Integer(x.minus(y)))),
        DefaultFunction::MultiplyInteger => Ok(con_value(Constant::Integer(x.times(y)))),
        DefaultFunction::DivideInteger => {
            if y.is_zero() {
                Err(MachineError::DivisionByZero)
            } else {
                let (q, _) = x.div_mod_floor(y);
                Ok(con_value(Constant::Integer(q)))
            }
        },
        DefaultFunction::QuotientInteger => {
            if y.is_zero() {
                Err(MachineError::DivisionByZero)
            } else {
                let (q, _) = x.div_rem(y);
                Ok(con_value(Constant::Integer(q)))
            }
        },
        DefaultFunction::RemainderInteger => {
            if y.is_zero() {
                Err(MachineError::DivisionByZero)
            } else {
                let (_, m) = x.div_rem(y);
                Ok(con_value(Constant::Integer(m)))
            }
        },
        DefaultFunction::ModInteger => {
            if y.is_zero() {
                Err(MachineError::DivisionByZero)
            } else {
                let (_, m) = x.div_mod_floor(y);
                Ok(con_value(Constant::Integer(m)))
            }
        },
        DefaultFunction::EqualsInteger => Ok(con_value(Constant::Bool(x.eq_val(y)))),
        DefaultFunction::LessThanInteger => Ok(con_value(Constant::Bool(x.lt(y)))),
        _ => Ok(con_value(Constant::Bool(x.le(y)))),
    }
}


/// `ConsByteString`, executed; proved against `spec_cons_byte`.
fn call_cons_byte(
    costs: &CostModel,
    budget: &mut ExBudget,
    logs: &mut Vec<String>,
    sem: BuiltinSemantics,
    args: &Vec<Value>,
) -> (r: Result<Value, MachineError>)
    requires
        costs.wf(),
        args@.len() == 2,
        wf_args(args@),
    ensures
        ({
            let out = spec_cons_byte(
                *costs,
                sem,
                vals_view(args@),
                budget_view(*old(budget)),
                logs_view(old(logs)@),
            );
            &&& budget_view(*final(budget)) == out.budget
            &&& logs_view(final(logs)@) == out.logs
            &&& match (r, out.res) {
                (Ok(v), Ok(vv)) => value_view(v) == vv && wf_value_exec(v) && wf_valuev(vv),
                (Err(e), Err(ee)) => e == ee,
                _ => false,
            }
        }),
{
    proof {
        assert(vals_view(args@)[0] == value_view(args@[0]));
        assert(vals_view(args@)[1] == value_view(args@[1]));
    }
    let x = match arg_integer(&args[0]) {
        Ok(n) => n,
        Err(e) => {
            return Err(e);
        },
    };
    let b = match arg_bytes(&args[1]) {
        Ok(v) => v,
        Err(e) => {
            return Err(e);
        },
    };
    let ems = ems2(x.ex_mem(), crate::cost::bytes_ex_mem_exec(b.len()));
    if let Err(e) = charge_exec(costs, budget, DefaultFunction::ConsByteString, &ems) {
        return Err(e);
    }
    let byte: u8 = match sem {
        BuiltinSemantics::V1 => {
            let m = BigNum::from_u64(256);
            let (_, md) = x.div_mod_floor(&m);
            proof {
                crate::bigint::lemma_fmod_pos(x.val(), 256);
            }
            match md.to_u64_opt() {
                Some(u) => u as u8,
                None => {
                    proof {
                        assert(false);
                    }
                    0
                },
            }
        },
        BuiltinSemantics::V2 => {
            if x.is_negative() {
                return Err(MachineError::ByteStringConsNotAByte);
            }
            match x.to_u64_opt() {
                Some(u) => {
                    if u > 255 {
                        return Err(MachineError::ByteStringConsNotAByte);
                    }
                    u as u8
                },
                None => {
                    return Err(MachineError::ByteStringConsNotAByte);
                },
            }
        },
    };
    Ok(con_value(Constant::ByteString(cons_byte_exec(byte, b))))
}

fn cons_byte_exec(byte: u8, b: &Vec<u8>) -> (r: Vec<u8>)
    ensures
        r@ == seq![byte] + b@,
{
    crate::bytes::cons_byte(byte, b)
}

/// The byte-string structure builtins, executed; proved against
/// `spec_bytes_group`.
fn call_bytes(
    costs: &CostModel,
    budget: &mut ExBudget,
    logs: &mut Vec<String>,
    fun: DefaultFunction,
    args: &Vec<Value>,
) -> (r: Result<Value, MachineError>)
    requires
        costs.wf(),
        fun == DefaultFunction::AppendByteString || fun == DefaultFunction::SliceByteString || fun
            == DefaultFunction::LengthOfByteString || fun == DefaultFunction::IndexByteString
            || fun == DefaultFunction::EqualsByteString || fun == DefaultFunction::LessThanByteString
            || fun == DefaultFunction::LessThanEqualsByteString,
        args@.len() == fun.spec_arity(),
        wf_args(args@),
    ensures
        ({
            let out = spec_bytes_group(
                *costs,
                fun,
                vals_view(args@),
                budget_view(*old(budget)),
                logs_view(old(logs)@),
            );
            &&& budget_view(*final(budget)) == out.budget
            &&& logs_view(final(logs)@) == out.logs
            &&& match (r, out.res) {
                (Ok(v), Ok(vv)) => value_view(v) == vv && wf_value_exec(v) && wf_valuev(vv),
                (Err(e), Err(ee)) => e == ee,
                _ => false,
            }
        }),
{
    proof {
        assert forall|i: int| 0 <= i < args@.len() implies vals_view(args@)[i] == value_view(
            #[trigger] args@[i],
        ) by {}
    }
    match fun {
        DefaultFunction::AppendByteString => {
            let a = match arg_bytes(&args[0]) {
                Ok(v) => v,
                Err(e) => {
                    return Err(e);
                },
            };
            let b = match arg_bytes(&args[1]) {
                Ok(v) => v,
                Err(e) => {
                    return Err(e);
                },
            };
            let ems = ems2(
                crate::cost::bytes_ex_mem_exec(a.len()),
                crate::cost::bytes_ex_mem_exec(b.len()),
            );
            if let Err(e) = charge_exec(costs, budget, fun, &ems) {
                return Err(e);
            }
            Ok(con_value(Constant::ByteString(crate::bytes::append_bytes(a, b))))
        },
        DefaultFunction::SliceByteString => {
            let skip_n = match arg_integer(&args[0]) {
                Ok(n) => n,
                Err(e) => {
                    return Err(e);
                },
            };
            let take_n = match arg_integer(&args[1]) {
                Ok(n) => n,
                Err(e) => {
                    return Err(e);
                },
            };
            let b = match arg_bytes(&args[2]) {
                Ok(v) => v,
                Err(e) => {
                    return Err(e);
                },
            };
            let ems = ems3(
                skip_n.ex_mem(),
                take_n.ex_mem(),
                crate::cost::bytes_ex_mem_exec(b.len()),
            );
            if let Err(e) = charge_exec(costs, budget, fun, &ems) {
                return Err(e);
            }
            let len = b.len();
            let skip: usize = clamp_to_len(skip_n, len);
            let take: usize = clamp_to_len(take_n, len);
            let end: usize = if take > len - skip {
                len
            } else {
                skip + take
            };
            Ok(con_value(Constant::ByteString(crate::bytes::slice_bytes(b, skip, end))))
        },
        DefaultFunction::LengthOfByteString => {
            let a = match arg_bytes(&args[0]) {
                Ok(v) => v,
                Err(e) => {
                    return Err(e);
                },
            };
            let ems = ems1(crate::cost::bytes_ex_mem_exec(a.len()));
            if let Err(e) = charge_exec(costs, budget, fun, &ems) {
                return Err(e);
            }
            Ok(con_value(Constant::Integer(BigNum::from_u64(a.len() as u64))))
        },
        DefaultFunction::IndexByteString => {
            let a = match arg_bytes(&args[0]) {
                Ok(v) => v,
                Err(e) => {
                    return Err(e);
                },
            };
            let i_n = match arg_integer(&args[1]) {
                Ok(n) => n,
                Err(e) => {
                    return Err(e);
                },
            };
            let ems = ems2(crate::cost::bytes_ex_mem_exec(a.len()), i_n.ex_mem());
            if let Err(e) = charge_exec(costs, budget, fun, &ems) {
                return Err(e);
            }
            if i_n.is_negative() {
                return Err(MachineError::ByteStringOutOfBounds);
            }
            match i_n.to_u64_opt() {
                Some(u) => {
                    if u < a.len() as u64 {
                        Ok(con_value(Constant::Integer(BigNum::from_u64(a[u as usize] as u64))))
                    } else {
                        Err(MachineError::ByteStringOutOfBounds)
                    }
                },
                None => Err(MachineError::ByteStringOutOfBounds),
            }
        },
        _ => {
            let a = match arg_bytes(&args[0]) {
                Ok(v) => v,
                Err(e) => {
                    return Err(e);
                },
            };
            let b = match arg_bytes(&args[1]) {
                Ok(v) => v,
                Err(e) => {
                    return Err(e);
                },
            };
            let ems = ems2(
                crate::cost::bytes_ex_mem_exec(a.len()),
                crate::cost::bytes_ex_mem_exec(b.len()),
            );
            if let Err(e) = charge_exec(costs, budget, fun, &ems) {
                return Err(e);
            }
            match fun {
                DefaultFunction::EqualsByteString => Ok(
                    con_value(Constant::Bool(crate::bigint::bytes_eq(a, b))),
                ),
                DefaultFunction::LessThanByteString => Ok(
                    con_value(Constant::Bool(crate::bytes::bytes_lt(a, b))),
                ),
                _ => Ok(con_value(Constant::Bool(!crate::bytes::bytes_lt(b, a)))),
            }
        },
    }
}

/// Clamps a big integer to a byte-string position: negatives to zero,
/// overlarge values to the length.
fn clamp_to_len(n: &BigNum, len: usize) -> (r: usize)
    requires
        n.wf(),
    ensures
        r as int == {
            let v = n.val();
            if v < 0 {
                0
            } else if v >= len {
                len as int
            } else {
                v
            }
        },
{
    if n.is_negative() {
        return 0;
    }
    match n.to_u64_opt() {
        Some(u) => {
            if u >= len as u64 {
                len
            } else {
                u as usize
            }
        },
        None => len,
    }
}

/// The hashing builtins, executed; proved against `spec_hash`.
fn call_hash(
    costs: &CostModel,
    budget: &mut ExBudget,
    logs: &mut Vec<String>,
    fun: DefaultFunction,
    args: &Vec<Value>,
) -> (r: Result<Value, MachineError>)
    requires
        costs.wf(),
        fun == DefaultFunction::Sha2_256 || fun == DefaultFunction::Sha3_256 || fun
            == DefaultFunction::Blake2b_224 || fun == DefaultFunction::Blake2b_256 || fun
            == DefaultFunction::Keccak_256 || fun == DefaultFunction::Ripemd_160,
        args@.len() == 1,
        wf_args(args@),
    ensures
        ({
            let out = spec_hash(
                *costs,
                fun,
                vals_view(args@),
                budget_view(*old(budget)),
                logs_view(old(logs)@),
            );
            &&& budget_view(*final(budget)) == out.budget
            &&& logs_view(final(logs)@) == out.logs
            &&& match (r, out.res) {
                (Ok(v), Ok(vv)) => value_view(v) == vv && wf_value_exec(v) && wf_valuev(vv),
                (Err(e), Err(ee)) => e == ee,
                _ => false,
            }
        }),
        r is Ok ==> value_view(r->Ok_0) is Con && value_view(r->Ok_0)->Con_0 is ByteString
            && value_view(r->Ok_0)->Con_0->ByteString_0.len() == digest_len(fun),
{
    proof {
        assert(vals_view(args@)[0] == value_view(args@[0]));
    }
    let a = match arg_bytes(&args[0]) {
        Ok(v) => v,
        Err(e) => {
            return Err(e);
        },
    };
    let ems = ems1(crate::cost::bytes_ex_mem_exec(a.len()));
    if let Err(e) = charge_exec(costs, budget, fun, &ems) {
        return Err(e);
    }
    let digest = match fun {
        DefaultFunction::Sha2_256 => crate::crypto::sha2_256(a),
        DefaultFunction::Sha3_256 => crate::crypto::sha3_256(a),
        DefaultFunction::Blake2b_224 => crate::crypto::blake2b_224(a),
        DefaultFunction::Blake2b_256 => crate::crypto::blake2b_256(a),
        DefaultFunction::Keccak_256 => crate::crypto::keccak_256(a),
        _ => crate::crypto::ripemd_160(a),
    };
    Ok(con_value(Constant::ByteString(digest)))
}

/// The signature builtins, executed; proved against `spec_sig`.
fn call_sig(
    costs: &CostModel,
    budget: &mut ExBudget,
    logs: &mut Vec<String>,
    fun: DefaultFunction,
    args: &Vec<Value>,
) -> (r: Result<Value, MachineError>)
    requires
        costs.wf(),
        fun == DefaultFunction::VerifyEd25519Signature || fun
            == DefaultFunction::VerifyEcdsaSecp256k1Signature || fun
            == DefaultFunction::VerifySchnorrSecp256k1Signature,
        args@.len() == 3,
        wf_args(args@),
    ensures
        ({
            let out = spec_sig(
                *costs,
                fun,
                vals_view(args@),
                budget_view(*old(budget)),
                logs_view(old(logs)@),
            );
            &&& budget_view(*final(budget)) == out.budget
            &&& logs_view(final(logs)@) == out.logs
            &&& match (r, out.res) {
                (Ok(v), Ok(vv)) => value_view(v) == vv && wf_value_exec(v) && wf_valuev(vv),
                (Err(e), Err(ee)) => e == ee,
                _ => false,
            }
        }),
{
    proof {
        assert forall|i: int| 0 <= i < args@.len() implies vals_view(args@)[i] == value_view(
            #[trigger] args@[i],
        ) by {}
    }
    let pk = match arg_bytes(&args[0]) {
        Ok(v) => v,
        Err(e) => {
            return Err(e);
        },
    };
    let msg = match arg_bytes(&args[1]) {
        Ok(v) => v,
        Err(e) => {
            return Err(e);
        },
    };
    let sig = match arg_bytes(&args[2]) {
        Ok(v) => v,
        Err(e) => {
            return Err(e);
        },
    };
    let ems = ems3(
        crate::cost::bytes_ex_mem_exec(pk.len()),
        crate::cost::bytes_ex_mem_exec(msg.len()),
        crate::cost::bytes_ex_mem_exec(sig.len()),
    );
    if let Err(e) = charge_exec(costs, budget, fun, &ems) {
        return Err(e);
    }
    match fun {
        DefaultFunction::VerifyEd25519Signature => {
            if pk.len() != 32 {
                return Err(MachineError::UnexpectedEd25519PublicKeyLength(pk.len()));
            }
            if sig.len() != 64 {
                return Err(MachineError::UnexpectedEd25519SignatureLength(sig.len()));
            }
            Ok(con_value(Constant::Bool(crate::crypto::verify_ed25519(pk, msg, sig))))
        },
        DefaultFunction::VerifyEcdsaSecp256k1Signature => {
            match crate::crypto::verify_ecdsa_secp256k1(pk, msg, sig) {
                Ok(b) => Ok(con_value(Constant::Bool(b))),
                Err(e) => Err(e),
            }
        },
        _ => {
            match crate::crypto::verify_schnorr_secp256k1(pk, msg, sig) {
                Ok(b) => Ok(con_value(Constant::Bool(b))),
                Err(e) => Err(e),
            }
        },
    }
}

/// The string builtins, executed; proved against `spec_string_group`.
fn call_string(
    costs: &CostModel,
    budget: &mut ExBudget,
    logs: &mut Vec<String>,
    fun: DefaultFunction,
    args: &Vec<Value>,
) -> (r: Result<Value, MachineError>)
    requires
        costs.wf(),
        fun == DefaultFunction::AppendString || fun == DefaultFunction::EqualsString || fun
            == DefaultFunction::EncodeUtf8 || fun == DefaultFunction::DecodeUtf8,
        args@.len() == fun.spec_arity(),
        wf_args(args@),
    ensures
        ({
            let out = spec_string_group(
                *costs,
                fun,
                vals_view(args@),
                budget_view(*old(budget)),
                logs_view(old(logs)@),
            );
            &&& budget_view(*final(budget)) == out.budget
            &&& logs_view(final(logs)@) == out.logs
            &&& match (r, out.res) {
                (Ok(v), Ok(vv)) => value_view(v) == vv && wf_value_exec(v) && wf_valuev(vv),
                (Err(e), Err(ee)) => e == ee,
                _ => false,
            }
        }),
{
    proof {
        assert forall|i: int| 0 <= i < args@.len() implies vals_view(args@)[i] == value_view(
            #[trigger] args@[i],
        ) by {}
    }
    match fun {
        DefaultFunction::AppendString => {
            let a = match arg_string(&args[0]) {
                Ok(v) => v,
                Err(e) => {
                    return Err(e);
                },
            };
            let b = match arg_string(&args[1]) {
                Ok(v) => v,
                Err(e) => {
                    return Err(e);
                },
            };
            let ems = ems2(str_ex_mem_exec(a), str_ex_mem_exec(b));
            if let Err(e) = charge_exec(costs, budget, fun, &ems) {
                return Err(e);
            }
            let mut out = a.clone();
            out.append(b.as_str());
            Ok(con_value(Constant::String(out)))
        },
        DefaultFunction::EqualsString => {
            let a = match arg_string(&args[0]) {
                Ok(v) => v,
                Err(e) => {
                    return Err(e);
                },
            };
            let b = match arg_string(&args[1]) {
                Ok(v) => v,
                Err(e) => {
                    return Err(e);
                },
            };
            let ems = ems2(str_ex_mem_exec(a), str_ex_mem_exec(b));
            if let Err(e) = charge_exec(costs, budget, fun, &ems) {
                return Err(e);
            }
            Ok(con_value(Constant::Bool(*a == *b)))
        },
        DefaultFunction::EncodeUtf8 => {
            let a = match arg_string(&args[0]) {
                Ok(v) => v,
                Err(e) => {
                    return Err(e);
                },
            };
            let ems = ems1(str_ex_mem_exec(a));
            if let Err(e) = charge_exec(costs, budget, fun, &ems) {
                return Err(e);
            }
            let bytes = vstd::slice::slice_to_vec(a.as_str().as_bytes());
            Ok(con_value(Constant::ByteString(bytes)))
        },
        _ => {
            let a = match arg_bytes(&args[0]) {
                Ok(v) => v,
                Err(e) => {
                    return Err(e);
                },
            };
            let ems = ems1(crate::cost::bytes_ex_mem_exec(a.len()));
            if let Err(e) = charge_exec(costs, budget, fun, &ems) {
                return Err(e);
            }
            match crate::crypto::decode_utf8_bytes(a) {
                Ok(s) => Ok(con_value(Constant::String(s))),
                Err(e) => Err(e),
            }
        },
    }
}

/// Branch selection and tracing, executed; proved against `spec_control`.
fn call_control(
    costs: &CostModel,
    budget: &mut ExBudget,
    logs: &mut Vec<String>,
    fun: DefaultFunction,
    args: &Vec<Value>,
) -> (r: Result<Value, MachineError>)
    requires
        costs.wf(),
        fun == DefaultFunction::IfThenElse || fun == DefaultFunction::ChooseUnit || fun
            == DefaultFunction::Trace,
        args@.len() == fun.spec_arity(),
        wf_args(args@),
    ensures
        ({
            let out = spec_control(
                *costs,
                fun,
                vals_view(args@),
                budget_view(*old(budget)),
                logs_view(old(logs)@),
            );
            &&& budget_view(*final(budget)) == out.budget
            &&& logs_view(final(logs)@) == out.logs
            &&& match (r, out.res) {
                (Ok(v), Ok(vv)) => value_view(v) == vv && wf_value_exec(v) && wf_valuev(vv),
                (Err(e), Err(ee)) => e == ee,
                _ => false,
            }
        }),
{
    proof {
        assert forall|i: int| 0 <= i < args@.len() implies vals_view(args@)[i] == value_view(
            #[trigger] args@[i],
        ) by {}
    }
    match fun {
        DefaultFunction::IfThenElse => {
            let c = match arg_bool(&args[0]) {
                Ok(v) => v,
                Err(e) => {
                    return Err(e);
                },
            };
            let ems = ems3(1, value_ex_mem_exec(&args[1]), value_ex_mem_exec(&args[2]));
            if let Err(e) = charge_exec(costs, budget, fun, &ems) {
                return Err(e);
            }
            if c {
                Ok(clone_value(&args[1]))
            } else {
                Ok(clone_value(&args[2]))
            }
        },
        DefaultFunction::ChooseUnit => {
            match arg_unit(&args[0]) {
                Ok(_) => {},
                Err(e) => {
                    return Err(e);
                },
            }
            let ems = ems2(1, value_ex_mem_exec(&args[1]));
            if let Err(e) = charge_exec(costs, budget, fun, &ems) {
                return Err(e);
            }
            Ok(clone_value(&args[1]))
        },
        _ => {
            let sref = match arg_string(&args[0]) {
                Ok(v) => v,
                Err(e) => {
                    return Err(e);
                },
            };
            let ems = ems2(str_ex_mem_exec(sref), value_ex_mem_exec(&args[1]));
            if let Err(e) = charge_exec(costs, budget, fun, &ems) {
                return Err(e);
            }
            let entry = sref.clone();
            logs.push(entry);
            proof {
                assert(logs_view(logs@) =~= logs_view(old(logs)@).push(sref@));
            }
            Ok(clone_value(&args[1]))
        },
    }
}


/// Ex-memory of a list of constants, summed with saturation.
fn const_list_ex_mem(items: &Vec<Constant>) -> (r: i64)
    requires
        forall|i: int| 0 <= i < items@.len() ==> wf_const_exec(#[trigger] items@[i]),
    ensures
        r == const_seq_ex_mem(
            Seq::new(items@.len(), |i: int| crate::constant::const_view(items@[i])),
        ),
        r >= 0,
{
    let ghost vs = Seq::new(items@.len(), |i: int| crate::constant::const_view(items@[i]));
    let mut acc: i64 = 0;
    let mut i: usize = 0;
    proof {
        assert(vs.subrange(0, 0) =~= Seq::<ConstV>::empty());
    }
    while i < items.len()
        invariant
            i <= items@.len(),
            vs == Seq::new(items@.len(), |k: int| crate::constant::const_view(items@[k])),
            vs.len() == items@.len(),
            forall|k: int| 0 <= k < items@.len() ==> wf_const_exec(#[trigger] items@[k]),
            acc >= 0,
            acc == const_seq_ex_mem(vs.subrange(0, i as int)),
        decreases items@.len() - i,
    {
        proof {
            assert(vs.subrange(0, i as int + 1).drop_last() =~= vs.subrange(0, i as int));
            assert(vs.subrange(0, i as int + 1).last() == vs[i as int]);
        }
        let e = const_ex_mem_exec(&items[i]);
        acc = sat_add_i64(acc, e);
        i += 1;
    }
    proof {
        assert(vs.subrange(0, vs.len() as int) =~= vs);
    }
    acc
}

/// The runtime type of a constant, as a fresh value.
fn type_of_constant(c: &Constant) -> (r: Type)
    ensures
        r == crate::constant::vtype_of(crate::constant::const_view(*c)),
    decreases *c,
{
    proof {
        lemma_const_view_unfold(c);
    }
    match c {
        Constant::Integer(_) => Type::Integer,
        Constant::ByteString(_) => Type::ByteString,
        Constant::String(_) => Type::String,
        Constant::Unit => Type::Unit,
        Constant::Bool(_) => Type::Bool,
        Constant::ProtoList(t, _) => Type::List(Box::new(clone_type(t))),
        Constant::ProtoPair(t1, t2, _, _) => Type::Pair(
            Box::new(clone_type(t1)),
            Box::new(clone_type(t2)),
        ),
        Constant::Data(_) => Type::Data,
        Constant::G1Element(_) => Type::G1Element,
        Constant::G2Element(_) => Type::G2Element,
        Constant::MlResult(_) => Type::MlResult,
    }
}

/// The pair and list builtins, executed; proved against `spec_list_group`.
#[verifier::rlimit(30)]
fn call_list(
    costs: &CostModel,
    budget: &mut ExBudget,
    logs: &mut Vec<String>,
    fun: DefaultFunction,
    args: &Vec<Value>,
) -> (r: Result<Value, MachineError>)
    requires
        costs.wf(),
        fun == DefaultFunction::FstPair || fun == DefaultFunction::SndPair || fun
            == DefaultFunction::ChooseList || fun == DefaultFunction::MkCons || fun
            == DefaultFunction::HeadList || fun == DefaultFunction::TailList || fun
            == DefaultFunction::NullList,
        args@.len() == fun.spec_arity(),
        wf_args(args@),
    ensures
        ({
            let out = spec_list_group(
                *costs,
                fun,
                vals_view(args@),
                budget_view(*old(budget)),
                logs_view(old(logs)@),
            );
            &&& budget_view(*final(budget)) == out.budget
            &&& logs_view(final(logs)@) == out.logs
            &&& match (r, out.res) {
                (Ok(v), Ok(vv)) => value_view(v) == vv && wf_value_exec(v) && wf_valuev(vv),
                (Err(e), Err(ee)) => e == ee,
                _ => false,
            }
        }),
{
    proof {
        assert forall|i: int| 0 <= i < args@.len() implies vals_view(args@)[i] == value_view(
            #[trigger] args@[i],
        ) by {}
    }
    match fun {
        DefaultFunction::FstPair | DefaultFunction::SndPair => {
            let (t1, t2, a, b) = match arg_pair(&args[0]) {
                Ok(p) => p,
                Err(e) => {
                    return Err(e);
                },
            };
            let ems = ems1(sat_add_i64(const_ex_mem_exec(a), const_ex_mem_exec(b)));
            if let Err(e) = charge_exec(costs, budget, fun, &ems) {
                return Err(e);
            }
            proof {
                assert(wf_valuev(value_view(args@[0])));
            }
            if matches!(fun, DefaultFunction::FstPair) {
                Ok(con_value(clone_constant(a)))
            } else {
                Ok(con_value(clone_constant(b)))
            }
        },
        DefaultFunction::ChooseList => {
            let (_, items) = match arg_list(&args[0], Type::Unit) {
                Ok(p) => p,
                Err(e) => {
                    return Err(e);
                },
            };
            let ems = ems3(
                const_list_ex_mem(items),
                value_ex_mem_exec(&args[1]),
                value_ex_mem_exec(&args[2]),
            );
            proof {
                let l = as_list(value_view(args@[0]))->Some_0;
                assert(Seq::new(items@.len(), |i: int| crate::constant::const_view(items@[i]))
                    =~= l.1);
            }
            if let Err(e) = charge_exec(costs, budget, fun, &ems) {
                return Err(e);
            }
            if items.len() == 0 {
                Ok(clone_value(&args[1]))
            } else {
                Ok(clone_value(&args[2]))
            }
        },
        DefaultFunction::MkCons => {
            let item = match arg_constant(&args[0]) {
                Ok(c) => c,
                Err(e) => {
                    return Err(e);
                },
            };
            let (t, items) = match arg_list(&args[1], Type::Unit) {
                Ok(p) => p,
                Err(e) => {
                    return Err(e);
                },
            };
            let ems = ems2(const_ex_mem_exec(item), const_list_ex_mem(items));
            proof {
                let l = as_list(value_view(args@[1]))->Some_0;
                assert(Seq::new(items@.len(), |i: int| crate::constant::const_view(items@[i]))
                    =~= l.1);
            }
            if let Err(e) = charge_exec(costs, budget, fun, &ems) {
                return Err(e);
            }
            let it = type_of_constant(item);
            if !type_eq(&it, t) {
                return Err(MachineError::TypeMismatch(clone_type(t)));
            }
            let mut out: Vec<Constant> = Vec::new();
            out.push(clone_constant(item));
            let mut i: usize = 0;
            while i < items.len()
                invariant
                    i <= items@.len(),
                    out@.len() == 1 + i,
                    forall|k: int| 0 <= k < items@.len() ==> wf_const_exec(#[trigger] items@[k]),
                    crate::constant::const_view(out@[0]) == crate::constant::const_view(*item)
                        && wf_const_exec(out@[0]),
                    forall|k: int|
                        1 <= k < out@.len() ==> crate::constant::const_view(#[trigger] out@[k])
                            == crate::constant::const_view(items@[k - 1]) && wf_const_exec(
                            out@[k],
                        ),
                decreases items@.len() - i,
            {
                let e = clone_constant(&items[i]);
                out.push(e);
                i += 1;
            }
            let lt = clone_type(t);
            let rc = Constant::ProtoList(lt, out);
            proof {
                lemma_const_view_unfold(&rc);
                let l = as_list(value_view(args@[1]))->Some_0;
                assert forall|k: int| 0 <= k < rc->ProtoList_1@.len() implies wf_const_exec(
                    #[trigger] rc->ProtoList_1@[k],
                ) by {}
                assert(wf_const_exec(rc));
                assert forall|k: int|
                    0 <= k < crate::constant::const_view(rc)->List_1.len() implies
                    crate::constant::const_view(rc)->List_1[k] == (seq![
                        crate::constant::const_view(*item),
                    ] + l.1)[k] by {
                    assert(crate::constant::const_view(rc)->List_1[k]
                        == crate::constant::const_view(rc->ProtoList_1@[k]));
                    if k > 0 {
                        assert(crate::constant::const_view(out@[k]) == crate::constant::const_view(
                            items@[k - 1],
                        ));
                        assert((seq![crate::constant::const_view(*item)] + l.1)[k] == l.1[k - 1]);
                    }
                }
                assert(crate::constant::const_view(rc)->List_1 =~= seq![
                    crate::constant::const_view(*item),
                ] + l.1);
            }
            let rv = con_value(rc);
            proof {
                let outv = spec_list_group(
                    *costs,
                    fun,
                    vals_view(args@),
                    budget_view(*old(budget)),
                    logs_view(old(logs)@),
                );
                assert(wf_valuev(value_view(args@[0])) && wf_valuev(value_view(args@[1])));
                let l = as_list(value_view(args@[1]))->Some_0;
                let itemv = as_con(value_view(args@[0]))->Some_0;
                assert(wf_valuev(outv.res->Ok_0)) by {
                    assert(outv.res->Ok_0 == ValueV::Con(
                        ConstV::List(l.0, seq![itemv] + l.1),
                    ));
                    assert forall|k: int| 0 <= k < (seq![itemv] + l.1).len() implies
                        crate::constant::wf_const(#[trigger] (seq![itemv] + l.1)[k])
                            && crate::constant::vtype_of((seq![itemv] + l.1)[k]) == l.0 by {
                        if k > 0 {
                            assert((seq![itemv] + l.1)[k] == l.1[k - 1]);
                            assert(crate::constant::wf_const(ConstV::List(l.0, l.1)));
                        }
                    }
                }
            }
            Ok(rv)
        },
        DefaultFunction::HeadList => {
            let (_, items) = match arg_list(&args[0], Type::Unit) {
                Ok(p) => p,
                Err(e) => {
                    return Err(e);
                },
            };
            let ems = ems1(const_list_ex_mem(items));
            proof {
                let l = as_list(value_view(args@[0]))->Some_0;
                assert(Seq::new(items@.len(), |i: int| crate::constant::const_view(items@[i]))
                    =~= l.1);
            }
            if let Err(e) = charge_exec(costs, budget, fun, &ems) {
                return Err(e);
            }
            if items.len() == 0 {
                return Err(MachineError::EmptyList);
            }
            proof {
                let l = as_list(value_view(args@[0]))->Some_0;
                assert(wf_valuev(value_view(args@[0])));
                assert(crate::constant::wf_const(ConstV::List(l.0, l.1)));
                assert(crate::constant::wf_const(l.1[0]));
            }
            Ok(con_value(clone_constant(&items[0])))
        },
        DefaultFunction::TailList => {
            let (t, items) = match arg_list(&args[0], Type::Unit) {
                Ok(p) => p,
                Err(e) => {
                    return Err(e);
                },
            };
            let ems = ems1(const_list_ex_mem(items));
            proof {
                let l = as_list(value_view(args@[0]))->Some_0;
                assert(Seq::new(items@.len(), |i: int| crate::constant::const_view(items@[i]))
                    =~= l.1);
            }
            if let Err(e) = charge_exec(costs, budget, fun, &ems) {
                return Err(e);
            }
            if items.len() == 0 {
                return Err(MachineError::EmptyList);
            }
            let mut out: Vec<Constant> = Vec::new();
            let mut i: usize = 1;
            while i < items.len()
                invariant
                    1 <= i <= items@.len(),
                    out@.len() == i - 1,
                    forall|k: int| 0 <= k < items@.len() ==> wf_const_exec(#[trigger] items@[k]),
                    forall|k: int|
                        0 <= k < i - 1 ==> crate::constant::const_view(#[trigger] out@[k])
                            == crate::constant::const_view(items@[k + 1]) && wf_const_exec(
                            out@[k],
                        ),
                decreases items@.len() - i,
            {
                let e = clone_constant(&items[i]);
                out.push(e);
                i += 1;
            }
            let rc = Constant::ProtoList(clone_type(t), out);
            proof {
                lemma_const_view_unfold(&rc);
                let l = as_list(value_view(args@[0]))->Some_0;
                assert forall|k: int| 0 <= k < rc->ProtoList_1@.len() implies wf_const_exec(
                    #[trigger] rc->ProtoList_1@[k],
                ) by {}
                assert(wf_const_exec(rc));
                assert forall|k: int|
                    0 <= k < crate::constant::const_view(rc)->List_1.len() implies
                    crate::constant::const_view(rc)->List_1[k] == l.1.drop_first()[k] by {
                    assert(crate::constant::const_view(rc)->List_1[k]
                        == crate::constant::const_view(rc->ProtoList_1@[k]));
                    assert(crate::constant::const_view(rc->ProtoList_1@[k])
                        == crate::constant::const_view(items@[k + 1]));
                    assert(l.1.drop_first()[k] == l.1[k + 1]);
                }
                assert(crate::constant::const_view(rc)->List_1 =~= l.1.drop_first());
            }
            let rv = con_value(rc);
            proof {
                let l = as_list(value_view(args@[0]))->Some_0;
                assert(wf_valuev(value_view(args@[0])));
                assert(crate::constant::wf_const(ConstV::List(l.0, l.1)));
                assert(wf_valuev(ValueV::Con(ConstV::List(l.0, l.1.drop_first())))) by {
                    assert forall|k: int| 0 <= k < l.1.drop_first().len() implies
                        crate::constant::wf_const(#[trigger] l.1.drop_first()[k])
                            && crate::constant::vtype_of(l.1.drop_first()[k]) == l.0 by {
                        assert(l.1.drop_first()[k] == l.1[k + 1]);
                    }
                }
            }
            Ok(rv)
        },
        _ => {
            let (_, items) = match arg_list(&args[0], Type::Unit) {
                Ok(p) => p,
                Err(e) => {
                    return Err(e);
                },
            };
            let ems = ems1(const_list_ex_mem(items));
            proof {
                let l = as_list(value_view(args@[0]))->Some_0;
                assert(Seq::new(items@.len(), |i: int| crate::constant::const_view(items@[i]))
                    =~= l.1);
            }
            if let Err(e) = charge_exec(costs, budget, fun, &ems) {
                return Err(e);
            }
            Ok(con_value(Constant::Bool(items.len() == 0)))
        },
    }
}


/// Ex-memory of a constructor's or list datum's fields.
fn data_list_ex_mem(ds: &Vec<PlutusData>) -> (r: i64)
    requires
        forall|i: int| 0 <= i < ds@.len() ==> crate::constant::wf_data_exec(#[trigger] ds@[i]),
    ensures
        r == data_seq_ex_mem(Seq::new(ds@.len(), |i: int| crate::constant::data_view(ds@[i]))),
        r >= 0,
{
    let ghost vs = Seq::new(ds@.len(), |i: int| crate::constant::data_view(ds@[i]));
    let mut acc: i64 = 0;
    let mut i: usize = 0;
    proof {
        assert(vs.subrange(0, 0) =~= Seq::<DataV>::empty());
    }
    while i < ds.len()
        invariant
            i <= ds@.len(),
            vs == Seq::new(ds@.len(), |k: int| crate::constant::data_view(ds@[k])),
            vs.len() == ds@.len(),
            forall|k: int| 0 <= k < ds@.len() ==> crate::constant::wf_data_exec(#[trigger] ds@[k]),
            acc >= 0,
            acc == data_seq_ex_mem(vs.subrange(0, i as int)),
        decreases ds@.len() - i,
    {
        proof {
            assert(vs.subrange(0, i as int + 1).drop_last() =~= vs.subrange(0, i as int));
            assert(vs.subrange(0, i as int + 1).last() == vs[i as int]);
        }
        let e = data_ex_mem_exec(&ds[i]);
        acc = sat_add_i64(acc, e);
        i += 1;
    }
    proof {
        assert(vs.subrange(0, vs.len() as int) =~= vs);
    }
    acc
}

/// Ex-memory of a datum map's pairs.
fn data_pairs_list_ex_mem(ps: &Vec<(PlutusData, PlutusData)>) -> (r: i64)
    requires
        forall|i: int|
            0 <= i < ps@.len() ==> crate::constant::wf_data_exec((#[trigger] ps@[i]).0)
                && crate::constant::wf_data_exec(ps@[i].1),
    ensures
        r == data_pairs_ex_mem(
            Seq::new(
                ps@.len(),
                |i: int|
                    (
                        crate::constant::data_view(ps@[i].0),
                        crate::constant::data_view(ps@[i].1),
                    ),
            ),
        ),
        r >= 0,
{
    let ghost vs = Seq::new(
        ps@.len(),
        |i: int| (crate::constant::data_view(ps@[i].0), crate::constant::data_view(ps@[i].1)),
    );
    let mut acc: i64 = 0;
    let mut i: usize = 0;
    proof {
        assert(vs.subrange(0, 0) =~= Seq::<(DataV, DataV)>::empty());
    }
    while i < ps.len()
        invariant
            i <= ps@.len(),
            vs == Seq::new(
                ps@.len(),
                |k: int|
                    (
                        crate::constant::data_view(ps@[k].0),
                        crate::constant::data_view(ps@[k].1),
                    ),
            ),
            vs.len() == ps@.len(),
            forall|k: int|
                0 <= k < ps@.len() ==> crate::constant::wf_data_exec((#[trigger] ps@[k]).0)
                    && crate::constant::wf_data_exec(ps@[k].1),
            acc >= 0,
            acc == data_pairs_ex_mem(vs.subrange(0, i as int)),
        decreases ps@.len() - i,
    {
        proof {
            assert(vs.subrange(0, i as int + 1).drop_last() =~= vs.subrange(0, i as int));
            assert(vs.subrange(0, i as int + 1).last() == vs[i as int]);
        }
        let e1 = data_ex_mem_exec(&ps[i].0);
        let e2 = data_ex_mem_exec(&ps[i].1);
        acc = sat_add_i64(acc, sat_add_i64(e1, e2));
        i += 1;
    }
    proof {
        assert(vs.subrange(0, vs.len() as int) =~= vs);
    }
    acc
}

/// Pulls the datum out of each element of a list of `Data` constants.
fn extract_datas(items: &Vec<Constant>) -> (r: Vec<PlutusData>)
    requires
        forall|i: int| 0 <= i < items@.len() ==> wf_const_exec(#[trigger] items@[i]),
        forall|i: int|
            0 <= i < items@.len() ==> crate::constant::const_view(#[trigger] items@[i]) is Data,
    ensures
        r@.len() == items@.len(),
        forall|i: int|
            0 <= i < r@.len() ==> crate::constant::data_view(#[trigger] r@[i])
                == crate::constant::const_view(items@[i])->Data_0 && crate::constant::wf_data_exec(
                r@[i],
            ),
{
    let mut out: Vec<PlutusData> = Vec::new();
    let mut i: usize = 0;
    while i < items.len()
        invariant
            i <= items@.len(),
            out@.len() == i,
            forall|k: int| 0 <= k < items@.len() ==> wf_const_exec(#[trigger] items@[k]),
            forall|k: int|
                0 <= k < items@.len() ==> crate::constant::const_view(
                    #[trigger] items@[k],
                ) is Data,
            forall|k: int|
                0 <= k < i ==> crate::constant::data_view(#[trigger] out@[k])
                    == crate::constant::const_view(items@[k])->Data_0
                    && crate::constant::wf_data_exec(out@[k]),
        decreases items@.len() - i,
    {
        let c = &items[i];
        proof {
            lemma_const_view_unfold(c);
            lemma_wf_const_unfold(c);
        }
        match c {
            Constant::Data(d) => {
                let e = clone_data(d);
                out.push(e);
            },
            _ => {
                proof {
                    assert(false);
                }
            },
        }
        i += 1;
    }
    out
}

/// Wraps each datum as a `Data` constant.
fn wrap_datas(ds: &Vec<PlutusData>) -> (r: Vec<Constant>)
    requires
        forall|i: int| 0 <= i < ds@.len() ==> crate::constant::wf_data_exec(#[trigger] ds@[i]),
    ensures
        r@.len() == ds@.len(),
        forall|i: int|
            0 <= i < r@.len() ==> crate::constant::const_view(#[trigger] r@[i]) == ConstV::Data(
                crate::constant::data_view(ds@[i]),
            ) && wf_const_exec(r@[i]),
    decreases ds@.len(),
{
    let mut out: Vec<Constant> = Vec::new();
    let mut i: usize = 0;
    while i < ds.len()
        invariant
            i <= ds@.len(),
            out@.len() == i,
            forall|k: int| 0 <= k < ds@.len() ==> crate::constant::wf_data_exec(#[trigger] ds@[k]),
            forall|k: int|
                0 <= k < i ==> crate::constant::const_view(#[trigger] out@[k]) == ConstV::Data(
                    crate::constant::data_view(ds@[k]),
                ) && wf_const_exec(out@[k]),
        decreases ds@.len() - i,
    {
        let e = Constant::Data(clone_data(&ds[i]));
        proof {
            lemma_const_view_unfold(&e);
        }
        out.push(e);
        i += 1;
    }
    out
}

/// The structural-data builtins, executed; proved against `spec_data_group`.
#[verifier::rlimit(50)]
fn call_data(
    costs: &CostModel,
    budget: &mut ExBudget,
    logs: &mut Vec<String>,
    fun: DefaultFunction,
    args: &Vec<Value>,
) -> (r: Result<Value, MachineError>)
    requires
        costs.wf(),
        fun == DefaultFunction::ChooseData || fun == DefaultFunction::ConstrData || fun
            == DefaultFunction::MapData || fun == DefaultFunction::ListData || fun
            == DefaultFunction::IData || fun == DefaultFunction::BData || fun
            == DefaultFunction::UnConstrData || fun == DefaultFunction::UnMapData || fun
            == DefaultFunction::UnListData || fun == DefaultFunction::UnIData || fun
            == DefaultFunction::UnBData || fun == DefaultFunction::EqualsData || fun
            == DefaultFunction::SerialiseData || fun == DefaultFunction::MkPairData || fun
            == DefaultFunction::MkNilData || fun == DefaultFunction::MkNilPairData,
        args@.len() == fun.spec_arity(),
        wf_args(args@),
    ensures
        ({
            let out = spec_data_group(
                *costs,
                fun,
                vals_view(args@),
                budget_view(*old(budget)),
                logs_view(old(logs)@),
            );
            &&& budget_view(*final(budget)) == out.budget
            &&& logs_view(final(logs)@) == out.logs
            &&& match (r, out.res) {
                (Ok(v), Ok(vv)) => value_view(v) == vv && wf_value_exec(v) && wf_valuev(vv),
                (Err(e), Err(ee)) => e == ee,
                _ => false,
            }
        }),
{
    proof {
        assert forall|i: int| 0 <= i < args@.len() implies vals_view(args@)[i] == value_view(
            #[trigger] args@[i],
        ) by {}
    }
    match fun {
        DefaultFunction::ChooseData => {
            let d = match arg_data(&args[0]) {
                Ok(v) => v,
                Err(e) => {
                    return Err(e);
                },
            };
            let ems = ems6(
                data_ex_mem_exec(d),
                value_ex_mem_exec(&args[1]),
                value_ex_mem_exec(&args[2]),
                value_ex_mem_exec(&args[3]),
                value_ex_mem_exec(&args[4]),
                value_ex_mem_exec(&args[5]),
            );
            if let Err(e) = charge_exec(costs, budget, fun, &ems) {
                return Err(e);
            }
            proof {
                crate::constant::lemma_data_view_unfold(d);
            }
            match d {
                PlutusData::Constr { .. } => Ok(clone_value(&args[1])),
                PlutusData::Mapping(_) => Ok(clone_value(&args[2])),
                PlutusData::List(_) => Ok(clone_value(&args[3])),
                PlutusData::Integer(_) => Ok(clone_value(&args[4])),
                PlutusData::ByteString(_) => Ok(clone_value(&args[5])),
            }
        },
        DefaultFunction::ConstrData => {
            let tag_n = match arg_integer(&args[0]) {
                Ok(n) => n,
                Err(e) => {
                    return Err(e);
                },
            };
            let (t, items) = match arg_list(&args[1], Type::Data) {
                Ok(p) => p,
                Err(e) => {
                    return Err(e);
                },
            };
            let ems = ems2(tag_n.ex_mem(), const_list_ex_mem(items));
            proof {
                let l = as_list(value_view(args@[1]))->Some_0;
                assert(Seq::new(items@.len(), |i: int| crate::constant::const_view(items@[i]))
                    =~= l.1);
            }
            if let Err(e) = charge_exec(costs, budget, fun, &ems) {
                return Err(e);
            }
            if !type_eq(t, &Type::Data) {
                return Err(MachineError::TypeMismatch(Type::Data));
            }
            if tag_n.is_negative() {
                return Err(MachineError::ConstrTagOutOfRange);
            }
            let tag: u64 = match tag_n.to_u64_opt() {
                Some(u) => u,
                None => {
                    return Err(MachineError::ConstrTagOutOfRange);
                },
            };
            proof {
                let l = as_list(value_view(args@[1]))->Some_0;
                assert(wf_valuev(value_view(args@[1])));
                assert(crate::constant::wf_const(ConstV::List(l.0, l.1)));
                assert forall|k: int| 0 <= k < items@.len() implies crate::constant::const_view(
                    #[trigger] items@[k],
                ) is Data by {
                    assert(crate::constant::vtype_of(l.1[k]) == Type::Data);
                    assert(l.1[k] == crate::constant::const_view(items@[k]));
                    crate::constant::lemma_vtype_data(l.1[k]);
                }
            }
            let fields = extract_datas(items);
            let rd = PlutusData::Constr { tag, fields };
            proof {
                crate::constant::lemma_data_view_unfold(&rd);
                let l = as_list(value_view(args@[1]))->Some_0;
                assert forall|k: int| 0 <= k < rd->Constr_fields@.len() implies
                    crate::constant::wf_data_exec(#[trigger] rd->Constr_fields@[k]) by {}
                assert(crate::constant::wf_data_exec(rd));
                assert forall|k: int|
                    0 <= k < crate::constant::data_view(rd)->Constr_fields.len() implies
                    crate::constant::data_view(rd)->Constr_fields[k] == datas_of(l.1)[k] by {
                    assert(crate::constant::data_view(rd)->Constr_fields[k]
                        == crate::constant::data_view(rd->Constr_fields@[k]));
                }
                assert(crate::constant::data_view(rd)->Constr_fields =~= datas_of(l.1));
            }
            let rc = Constant::Data(rd);
            proof {
                lemma_const_view_unfold(&rc);
            }
            Ok(con_value(rc))
        },
        DefaultFunction::MapData => {
            let (t, items) = match arg_list(
                &args[0],
                Type::Pair(Box::new(Type::Data), Box::new(Type::Data)),
            ) {
                Ok(p) => p,
                Err(e) => {
                    return Err(e);
                },
            };
            let expected = Type::Pair(Box::new(Type::Data), Box::new(Type::Data));
            if !type_eq(t, &expected) {
                return Err(
                    MachineError::TypeMismatch(
                        Type::List(
                            Box::new(Type::Pair(Box::new(Type::Data), Box::new(Type::Data))),
                        ),
                    ),
                );
            }
            let ems = ems1(const_list_ex_mem(items));
            proof {
                let l = as_list(value_view(args@[0]))->Some_0;
                assert(Seq::new(items@.len(), |i: int| crate::constant::const_view(items@[i]))
                    =~= l.1);
            }
            if let Err(e) = charge_exec(costs, budget, fun, &ems) {
                return Err(e);
            }
            proof {
                let l = as_list(value_view(args@[0]))->Some_0;
                assert(wf_valuev(value_view(args@[0])));
                assert(crate::constant::wf_const(ConstV::List(l.0, l.1)));
                assert forall|k: int| 0 <= k < items@.len() implies crate::constant::const_view(
                    #[trigger] items@[k],
                ) is Pair && *crate::constant::const_view(items@[k])->Pair_2 is Data
                    && *crate::constant::const_view(items@[k])->Pair_3 is Data by {
                    assert(crate::constant::vtype_of(l.1[k]) == expected);
                    assert(l.1[k] == crate::constant::const_view(items@[k]));
                    crate::constant::lemma_vtype_pair_data(l.1[k]);
                }
            }
            let mut ps: Vec<(PlutusData, PlutusData)> = Vec::new();
            let mut i: usize = 0;
            while i < items.len()
                invariant
                    i <= items@.len(),
                    ps@.len() == i,
                    forall|k: int| 0 <= k < items@.len() ==> wf_const_exec(#[trigger] items@[k]),
                    forall|k: int|
                        0 <= k < items@.len() ==> crate::constant::const_view(
                            #[trigger] items@[k],
                        ) is Pair && *crate::constant::const_view(items@[k])->Pair_2 is Data
                            && *crate::constant::const_view(items@[k])->Pair_3 is Data,
                    forall|k: int|
                        0 <= k < i ==> (
                            crate::constant::data_view((#[trigger] ps@[k]).0),
                            crate::constant::data_view(ps@[k].1),
                        ) == (
                            (*crate::constant::const_view(items@[k])->Pair_2)->Data_0,
                            (*crate::constant::const_view(items@[k])->Pair_3)->Data_0,
                        ) && crate::constant::wf_data_exec(ps@[k].0)
                            && crate::constant::wf_data_exec(ps@[k].1),
                decreases items@.len() - i,
            {
                let c = &items[i];
                proof {
                    lemma_const_view_unfold(c);
                    lemma_wf_const_unfold(c);
                }
                match c {
                    Constant::ProtoPair(_, _, a, b) => {
                        proof {
                            lemma_const_view_unfold(&**a);
                            lemma_const_view_unfold(&**b);
                            lemma_wf_const_unfold(&**a);
                            lemma_wf_const_unfold(&**b);
                        }
                        match (&**a, &**b) {
                            (Constant::Data(da), Constant::Data(db)) => {
                                let e1 = clone_data(da);
                                let e2 = clone_data(db);
                                ps.push((e1, e2));
                            },
                            _ => {
                                proof {
                                    assert(false);
                                }
                            },
                        }
                    },
                    _ => {
                        proof {
                            assert(false);
                        }
                    },
                }
                i += 1;
            }
            let rd = PlutusData::Mapping(ps);
            proof {
                crate::constant::lemma_data_view_unfold(&rd);
                let l = as_list(value_view(args@[0]))->Some_0;
                assert forall|k: int| 0 <= k < rd->Mapping_0@.len() implies
                    crate::constant::wf_data_exec((#[trigger] rd->Mapping_0@[k]).0)
                        && crate::constant::wf_data_exec(rd->Mapping_0@[k].1) by {}
                assert(crate::constant::wf_data_exec(rd));
                assert forall|k: int|
                    0 <= k < crate::constant::data_view(rd)->Mapping_0.len() implies
                    crate::constant::data_view(rd)->Mapping_0[k] == data_pairs_of(l.1)[k] by {
                    assert(crate::constant::data_view(rd)->Mapping_0[k] == (
                        crate::constant::data_view(rd->Mapping_0@[k].0),
                        crate::constant::data_view(rd->Mapping_0@[k].1),
                    ));
                }
                assert(crate::constant::data_view(rd)->Mapping_0 =~= data_pairs_of(l.1));
            }
            let rc = Constant::Data(rd);
            proof {
                lemma_const_view_unfold(&rc);
            }
            Ok(con_value(rc))
        },
        DefaultFunction::ListData => {
            let (t, items) = match arg_list(&args[0], Type::Data) {
                Ok(p) => p,
                Err(e) => {
                    return Err(e);
                },
            };
            let ems = ems1(const_list_ex_mem(items));
            proof {
                let l = as_list(value_view(args@[0]))->Some_0;
                assert(Seq::new(items@.len(), |i: int| crate::constant::const_view(items@[i]))
                    =~= l.1);
            }
            if let Err(e) = charge_exec(costs, budget, fun, &ems) {
                return Err(e);
            }
            if !type_eq(t, &Type::Data) {
                return Err(MachineError::TypeMismatch(Type::Data));
            }
            proof {
                let l = as_list(value_view(args@[0]))->Some_0;
                assert(wf_valuev(value_view(args@[0])));
                assert(crate::constant::wf_const(ConstV::List(l.0, l.1)));
                assert forall|k: int| 0 <= k < items@.len() implies crate::constant::const_view(
                    #[trigger] items@[k],
                ) is Data by {
                    assert(crate::constant::vtype_of(l.1[k]) == Type::Data);
                    assert(l.1[k] == crate::constant::const_view(items@[k]));
                    crate::constant::lemma_vtype_data(l.1[k]);
                }
            }
            let ds = extract_datas(items);
            let rd = PlutusData::List(ds);
            proof {
                crate::constant::lemma_data_view_unfold(&rd);
                let l = as_list(value_view(args@[0]))->Some_0;
                assert forall|k: int| 0 <= k < rd->List_0@.len() implies
                    crate::constant::wf_data_exec(#[trigger] rd->List_0@[k]) by {}
                assert(crate::constant::wf_data_exec(rd));
                assert forall|k: int|
                    0 <= k < crate::constant::data_view(rd)->List_0.len() implies
                    crate::constant::data_view(rd)->List_0[k] == datas_of(l.1)[k] by {
                    assert(crate::constant::data_view(rd)->List_0[k]
                        == crate::constant::data_view(rd->List_0@[k]));
                }
                assert(crate::constant::data_view(rd)->List_0 =~= datas_of(l.1));
            }
            let rc = Constant::Data(rd);
            proof {
                lemma_const_view_unfold(&rc);
            }
            Ok(con_value(rc))
        },
        DefaultFunction::IData => {
            let x = match arg_integer(&args[0]) {
                Ok(n) => n,
                Err(e) => {
                    return Err(e);
                },
            };
            let ems = ems1(x.ex_mem());
            if let Err(e) = charge_exec(costs, budget, fun, &ems) {
                return Err(e);
            }
            let rc = Constant::Data(PlutusData::Integer(x.clone_num()));
            proof {
                lemma_const_view_unfold(&rc);
                crate::constant::lemma_data_view_unfold(&rc->Data_0);
            }
            Ok(con_value(rc))
        },
        DefaultFunction::BData => {
            let b = match arg_bytes(&args[0]) {
                Ok(v) => v,
                Err(e) => {
                    return Err(e);
                },
            };
            let ems = ems1(crate::cost::bytes_ex_mem_exec(b.len()));
            if let Err(e) = charge_exec(costs, budget, fun, &ems) {
                return Err(e);
            }
            let rc = Constant::Data(PlutusData::ByteString(clone_bytes(b)));
            proof {
                lemma_const_view_unfold(&rc);
                crate::constant::lemma_data_view_unfold(&rc->Data_0);
            }
            Ok(con_value(rc))
        },
        _ => call_data_un(costs, budget, logs, fun, args),
    }
}

/// The data projections and remaining data builtins, executed; proved
/// against `spec_data_group`.
#[verifier::rlimit(50)]
fn call_data_un(
    costs: &CostModel,
    budget: &mut ExBudget,
    logs: &mut Vec<String>,
    fun: DefaultFunction,
    args: &Vec<Value>,
) -> (r: Result<Value, MachineError>)
    requires
        costs.wf(),
        fun == DefaultFunction::UnConstrData || fun == DefaultFunction::UnMapData || fun
            == DefaultFunction::UnListData || fun == DefaultFunction::UnIData || fun
            == DefaultFunction::UnBData || fun == DefaultFunction::EqualsData || fun
            == DefaultFunction::SerialiseData || fun == DefaultFunction::MkPairData || fun
            == DefaultFunction::MkNilData || fun == DefaultFunction::MkNilPairData,
        args@.len() == fun.spec_arity(),
        wf_args(args@),
    ensures
        ({
            let out = spec_data_group(
                *costs,
                fun,
                vals_view(args@),
                budget_view(*old(budget)),
                logs_view(old(logs)@),
            );
            &&& budget_view(*final(budget)) == out.budget
            &&& logs_view(final(logs)@) == out.logs
            &&& match (r, out.res) {
                (Ok(v), Ok(vv)) => value_view(v) == vv && wf_value_exec(v) && wf_valuev(vv),
                (Err(e), Err(ee)) => e == ee,
                _ => false,
            }
        }),
{
    proof {
        assert forall|i: int| 0 <= i < args@.len() implies vals_view(args@)[i] == value_view(
            #[trigger] args@[i],
        ) by {}
    }
    match fun {
        DefaultFunction::UnConstrData => {
            let d = match arg_data(&args[0]) {
                Ok(v) => v,
                Err(e) => {
                    return Err(e);
                },
            };
            proof {
                crate::constant::lemma_data_view_unfold(d);
                crate::constant::lemma_wf_data_unfold(d);
            }
            match d {
                PlutusData::Constr { tag, fields } => {
                    let ems = ems1(data_list_ex_mem(fields));
                    proof {
                        let dv = as_data(value_view(args@[0]))->Some_0;
                        assert(Seq::new(
                            fields@.len(),
                            |i: int| crate::constant::data_view(fields@[i]),
                        ) =~= dv->Constr_fields);
                    }
                    if let Err(e) = charge_exec(costs, budget, fun, &ems) {
                        return Err(e);
                    }
                    let wrapped = wrap_datas(fields);
                    let lst = Constant::ProtoList(Type::Data, wrapped);
                    proof {
                        lemma_const_view_unfold(&lst);
                        let dv = as_data(value_view(args@[0]))->Some_0;
                        assert forall|k: int| 0 <= k < lst->ProtoList_1@.len() implies
                            wf_const_exec(#[trigger] lst->ProtoList_1@[k]) by {}
                        assert(wf_const_exec(lst));
                        assert forall|k: int|
                            0 <= k < crate::constant::const_view(lst)->List_1.len() implies
                            crate::constant::const_view(lst)->List_1[k] == data_consts(
                                dv->Constr_fields,
                            )[k] by {
                            assert(crate::constant::const_view(lst)->List_1[k]
                                == crate::constant::const_view(lst->ProtoList_1@[k]));
                        }
                        assert(crate::constant::const_view(lst)->List_1 =~= data_consts(
                            dv->Constr_fields,
                        ));
                    }
                    proof {
                        let dv = as_data(value_view(args@[0]))->Some_0;
                        assert(crate::constant::wf_const(crate::constant::const_view(lst))) by {
                            assert forall|k: int|
                                0 <= k < data_consts(dv->Constr_fields).len() implies
                                crate::constant::wf_const(
                                    #[trigger] data_consts(dv->Constr_fields)[k],
                                ) && crate::constant::vtype_of(
                                    data_consts(dv->Constr_fields)[k],
                                ) == Type::Data by {}
                        }
                    }
                    let tag_c = Constant::Integer(BigNum::from_u64(*tag));
                    proof {
                        lemma_const_view_unfold(&tag_c);
                    }
                    let rc = Constant::ProtoPair(
                        Type::Integer,
                        Type::List(Box::new(Type::Data)),
                        Box::new(tag_c),
                        Box::new(lst),
                    );
                    proof {
                        lemma_const_view_unfold(&rc);
                        assert(wf_const_exec(*rc->ProtoPair_2));
                        assert(wf_const_exec(*rc->ProtoPair_3));
                        assert(wf_const_exec(rc));
                        assert(crate::constant::wf_const(
                            *crate::constant::const_view(rc)->Pair_2,
                        ));
                        assert(crate::constant::wf_const(
                            *crate::constant::const_view(rc)->Pair_3,
                        ));
                        assert(crate::constant::vtype_of(*crate::constant::const_view(rc)->Pair_2)
                            == crate::constant::const_view(rc)->Pair_0);
                        assert(crate::constant::vtype_of(*crate::constant::const_view(rc)->Pair_3)
                            == crate::constant::const_view(rc)->Pair_1);
                        assert(crate::constant::wf_const(crate::constant::const_view(rc)));
                    }
                    Ok(con_value(rc))
                },
                _ => Err(MachineError::TypeMismatch(Type::Data)),
            }
        },
        DefaultFunction::UnMapData => {
            let d = match arg_data(&args[0]) {
                Ok(v) => v,
                Err(e) => {
                    return Err(e);
                },
            };
            proof {
                crate::constant::lemma_data_view_unfold(d);
                crate::constant::lemma_wf_data_unfold(d);
            }
            match d {
                PlutusData::Mapping(ps) => {
                    let ems = ems1(data_pairs_list_ex_mem(ps));
                    proof {
                        let dv = as_data(value_view(args@[0]))->Some_0;
                        assert(Seq::new(
                            ps@.len(),
                            |i: int|
                                (
                                    crate::constant::data_view(ps@[i].0),
                                    crate::constant::data_view(ps@[i].1),
                                ),
                        ) =~= dv->Mapping_0);
                    }
                    if let Err(e) = charge_exec(costs, budget, fun, &ems) {
                        return Err(e);
                    }
                    let mut out: Vec<Constant> = Vec::new();
                    let mut i: usize = 0;
                    while i < ps.len()
                        invariant
                            i <= ps@.len(),
                            out@.len() == i,
                            forall|k: int|
                                0 <= k < ps@.len() ==> crate::constant::wf_data_exec(
                                    (#[trigger] ps@[k]).0,
                                ) && crate::constant::wf_data_exec(ps@[k].1),
                            forall|k: int|
                                0 <= k < i ==> crate::constant::const_view(#[trigger] out@[k])
                                    == ConstV::Pair(
                                    Type::Data,
                                    Type::Data,
                                    Box::new(
                                        ConstV::Data(crate::constant::data_view(ps@[k].0)),
                                    ),
                                    Box::new(
                                        ConstV::Data(crate::constant::data_view(ps@[k].1)),
                                    ),
                                ) && wf_const_exec(out@[k]),
                        decreases ps@.len() - i,
                    {
                        let e1 = Constant::Data(clone_data(&ps[i].0));
                        let e2 = Constant::Data(clone_data(&ps[i].1));
                        let pr = Constant::ProtoPair(
                            Type::Data,
                            Type::Data,
                            Box::new(e1),
                            Box::new(e2),
                        );
                        proof {
                            lemma_const_view_unfold(&pr);
                            lemma_const_view_unfold(&*pr->ProtoPair_2);
                            lemma_const_view_unfold(&*pr->ProtoPair_3);
                            assert(wf_const_exec(*pr->ProtoPair_2));
                            assert(wf_const_exec(*pr->ProtoPair_3));
                            assert(wf_const_exec(pr));
                            assert(crate::constant::const_view(pr) == ConstV::Pair(
                                Type::Data,
                                Type::Data,
                                Box::new(ConstV::Data(crate::constant::data_view(ps@[i as int].0))),
                                Box::new(ConstV::Data(crate::constant::data_view(ps@[i as int].1))),
                            ));
                        }
                        out.push(pr);
                        i += 1;
                    }
                    let lst = Constant::ProtoList(
                        Type::Pair(Box::new(Type::Data), Box::new(Type::Data)),
                        out,
                    );
                    proof {
                        lemma_const_view_unfold(&lst);
                        let dv = as_data(value_view(args@[0]))->Some_0;
                        assert forall|k: int| 0 <= k < lst->ProtoList_1@.len() implies
                            wf_const_exec(#[trigger] lst->ProtoList_1@[k]) by {}
                        assert(wf_const_exec(lst));
                        assert forall|k: int|
                            0 <= k < crate::constant::const_view(lst)->List_1.len() implies
                            crate::constant::const_view(lst)->List_1[k] == data_pair_consts(
                                dv->Mapping_0,
                            )[k] by {
                            assert(crate::constant::const_view(lst)->List_1[k]
                                == crate::constant::const_view(lst->ProtoList_1@[k]));
                        }
                        assert(crate::constant::const_view(lst)->List_1 =~= data_pair_consts(
                            dv->Mapping_0,
                        ));
                        assert(crate::constant::wf_const(crate::constant::const_view(lst))) by {
                            assert forall|k: int|
                                0 <= k < data_pair_consts(dv->Mapping_0).len() implies
                                crate::constant::wf_const(
                                    #[trigger] data_pair_consts(dv->Mapping_0)[k],
                                ) && crate::constant::vtype_of(
                                    data_pair_consts(dv->Mapping_0)[k],
                                ) == Type::Pair(Box::new(Type::Data), Box::new(Type::Data)) by {
                                let p = data_pair_consts(dv->Mapping_0)[k];
                                assert(crate::constant::wf_const(*p->Pair_2));
                                assert(crate::constant::wf_const(*p->Pair_3));
                                assert(crate::constant::vtype_of(*p->Pair_2) == p->Pair_0);
                                assert(crate::constant::vtype_of(*p->Pair_3) == p->Pair_1);
                            }
                        }
                    }
                    Ok(con_value(lst))
                },
                _ => Err(MachineError::TypeMismatch(Type::Data)),
            }
        },
        DefaultFunction::UnListData => {
            let d = match arg_data(&args[0]) {
                Ok(v) => v,
                Err(e) => {
                    return Err(e);
                },
            };
            proof {
                crate::constant::lemma_data_view_unfold(d);
                crate::constant::lemma_wf_data_unfold(d);
            }
            match d {
                PlutusData::List(items) => {
                    let ems = ems1(data_list_ex_mem(items));
                    proof {
                        let dv = as_data(value_view(args@[0]))->Some_0;
                        assert(Seq::new(
                            items@.len(),
                            |i: int| crate::constant::data_view(items@[i]),
                        ) =~= dv->List_0);
                    }
                    if let Err(e) = charge_exec(costs, budget, fun, &ems) {
                        return Err(e);
                    }
                    let wrapped = wrap_datas(items);
                    let lst = Constant::ProtoList(Type::Data, wrapped);
                    proof {
                        lemma_const_view_unfold(&lst);
                        let dv = as_data(value_view(args@[0]))->Some_0;
                        assert forall|k: int| 0 <= k < lst->ProtoList_1@.len() implies
                            wf_const_exec(#[trigger] lst->ProtoList_1@[k]) by {}
                        assert(wf_const_exec(lst));
                        assert forall|k: int|
                            0 <= k < crate::constant::const_view(lst)->List_1.len() implies
                            crate::constant::const_view(lst)->List_1[k] == data_consts(
                                dv->List_0,
                            )[k] by {
                            assert(crate::constant::const_view(lst)->List_1[k]
                                == crate::constant::const_view(lst->ProtoList_1@[k]));
                        }
                        assert(crate::constant::const_view(lst)->List_1 =~= data_consts(
                            dv->List_0,
                        ));
                        assert(crate::constant::wf_const(crate::constant::const_view(lst))) by {
                            assert forall|k: int| 0 <= k < data_consts(dv->List_0).len() implies
                                crate::constant::wf_const(#[trigger] data_consts(dv->List_0)[k])
                                    && crate::constant::vtype_of(data_consts(dv->List_0)[k])
                                    == Type::Data by {}
                        }
                    }
                    Ok(con_value(lst))
                },
                _ => Err(MachineError::TypeMismatch(Type::Data)),
            }
        },
        DefaultFunction::UnIData => {
            let d = match arg_data(&args[0]) {
                Ok(v) => v,
                Err(e) => {
                    return Err(e);
                },
            };
            proof {
                crate::constant::lemma_data_view_unfold(d);
                crate::constant::lemma_wf_data_unfold(d);
            }
            match d {
                PlutusData::Integer(n) => {
                    let ems = ems1(n.ex_mem());
                    if let Err(e) = charge_exec(costs, budget, fun, &ems) {
                        return Err(e);
                    }
                    Ok(con_value(Constant::Integer(n.clone_num())))
                },
                _ => Err(MachineError::TypeMismatch(Type::Data)),
            }
        },
        DefaultFunction::UnBData => {
            let d = match arg_data(&args[0]) {
                Ok(v) => v,
                Err(e) => {
                    return Err(e);
                },
            };
            proof {
                crate::constant::lemma_data_view_unfold(d);
            }
            match d {
                PlutusData::ByteString(b) => {
                    let ems = ems1(crate::cost::bytes_ex_mem_exec(b.len()));
                    if let Err(e) = charge_exec(costs, budget, fun, &ems) {
                        return Err(e);
                    }
                    Ok(con_value(Constant::ByteString(clone_bytes(b))))
                },
                _ => Err(MachineError::TypeMismatch(Type::Data)),
            }
        },
        DefaultFunction::EqualsData => {
            let d1 = match arg_data(&args[0]) {
                Ok(v) => v,
                Err(e) => {
                    return Err(e);
                },
            };
            let d2 = match arg_data(&args[1]) {
                Ok(v) => v,
                Err(e) => {
                    return Err(e);
                },
            };
            let ems = ems2(data_ex_mem_exec(d1), data_ex_mem_exec(d2));
            if let Err(e) = charge_exec(costs, budget, fun, &ems) {
                return Err(e);
            }
            Ok(con_value(Constant::Bool(equals_data(d1, d2))))
        },
        DefaultFunction::SerialiseData => {
            match arg_data(&args[0]) {
                Ok(_) => Err(MachineError::UnsupportedBuiltin),
                Err(e) => Err(e),
            }
        },
        DefaultFunction::MkPairData => {
            let d1 = match arg_data(&args[0]) {
                Ok(v) => v,
                Err(e) => {
                    return Err(e);
                },
            };
            let d2 = match arg_data(&args[1]) {
                Ok(v) => v,
                Err(e) => {
                    return Err(e);
                },
            };
            let ems = ems2(data_ex_mem_exec(d1), data_ex_mem_exec(d2));
            if let Err(e) = charge_exec(costs, budget, fun, &ems) {
                return Err(e);
            }
            let rc = Constant::ProtoPair(
                Type::Data,
                Type::Data,
                Box::new(Constant::Data(clone_data(d1))),
                Box::new(Constant::Data(clone_data(d2))),
            );
            proof {
                lemma_const_view_unfold(&rc);
                lemma_const_view_unfold(&*rc->ProtoPair_2);
                lemma_const_view_unfold(&*rc->ProtoPair_3);
                assert(wf_const_exec(*rc->ProtoPair_2));
                assert(wf_const_exec(*rc->ProtoPair_3));
                assert(wf_const_exec(rc));
            }
            Ok(con_value(rc))
        },
        DefaultFunction::MkNilData => {
            match arg_unit(&args[0]) {
                Ok(_) => {},
                Err(e) => {
                    return Err(e);
                },
            }
            let ems = ems1(1);
            if let Err(e) = charge_exec(costs, budget, fun, &ems) {
                return Err(e);
            }
            let rc = Constant::ProtoList(Type::Data, Vec::new());
            proof {
                lemma_const_view_unfold(&rc);
                assert(crate::constant::const_view(rc)->List_1 =~= Seq::<ConstV>::empty());
            }
            Ok(con_value(rc))
        },
        _ => {
            match arg_unit(&args[0]) {
                Ok(_) => {},
                Err(e) => {
                    return Err(e);
                },
            }
            let ems = ems1(1);
            if let Err(e) = charge_exec(costs, budget, fun, &ems) {
                return Err(e);
            }
            let rc = Constant::ProtoList(
                Type::Pair(Box::new(Type::Data), Box::new(Type::Data)),
                Vec::new(),
            );
            proof {
                lemma_const_view_unfold(&rc);
                assert(crate::constant::const_view(rc)->List_1 =~= Seq::<ConstV>::empty());
            }
            Ok(con_value(rc))
        },
    }
}


/// The order of the scalar field, as a number.
fn scalar_period_num() -> (r: BigNum)
    ensures
        r.wf(),
        r.val() == scalar_period_val(),
        r.val() > 0,
{
    let mut v: Vec<u8> = Vec::new();
    v.push(0x73);
    v.push(0xed);
    v.push(0xa7);
    v.push(0x53);
    v.push(0x29);
    v.push(0x9d);
    v.push(0x7d);
    v.push(0x48);
    v.push(0x33);
    v.push(0x39);
    v.push(0xd8);
    v.push(0x08);
    v.push(0x09);
    v.push(0xa1);
    v.push(0xd8);
    v.push(0x05);
    v.push(0x53);
    v.push(0xbd);
    v.push(0xa4);
    v.push(0x02);
    v.push(0xff);
    v.push(0xfe);
    v.push(0x5b);
    v.push(0xfe);
    v.push(0xff);
    v.push(0xff);
    v.push(0xff);
    v.push(0xff);
    v.push(0x00);
    v.push(0x00);
    v.push(0x00);
    v.push(0x01);
    proof {
        assert(v@ =~= crate::bls::scalar_period_bytes());
        crate::bigint::lemma_be_val_lower(v@);
        crate::bigint::lemma_pow256_mono(0, 31);
    }
    BigNum { neg: false, mag: v }
}

/// A reduced scalar as the 32 little-endian bytes the curve library takes.
fn scalar_to_le32(m: &BigNum) -> (r: Vec<u8>)
    requires
        m.wf(),
        0 <= m.val() < scalar_period_val(),
    ensures
        r@.len() == 32,
        le_val(r@) == m.val(),
{
    proof {
        crate::bigint::lemma_be_val_bound(crate::bls::scalar_period_bytes());
        if m.mag@.len() > 32 {
            crate::bigint::lemma_be_val_lower(m.mag@);
            crate::bigint::lemma_pow256_mono(32, (m.mag@.len() - 1) as nat);
            assert(false);
        }
        crate::bigint::lemma_le_val_reverse(m.mag@.reverse());
        assert(m.mag@.reverse().reverse() =~= m.mag@);
    }
    let mut r = crate::bytes::reverse_bytes(&m.mag);
    while r.len() < 32
        invariant
            r@.len() <= 32,
            le_val(r@) == m.val(),
        decreases 32 - r@.len(),
    {
        proof {
            crate::bigint::lemma_le_val_push(r@, 0);
        }
        r.push(0);
    }
    r
}

/// The BLS12-381 builtins, executed; proved against `spec_bls`.
#[verifier::rlimit(50)]
fn call_bls(
    costs: &CostModel,
    budget: &mut ExBudget,
    logs: &mut Vec<String>,
    fun: DefaultFunction,
    args: &Vec<Value>,
) -> (r: Result<Value, MachineError>)
    requires
        costs.wf(),
        fun == DefaultFunction::Bls12_381_G1_Add || fun == DefaultFunction::Bls12_381_G1_Neg || fun
            == DefaultFunction::Bls12_381_G1_ScalarMul || fun
            == DefaultFunction::Bls12_381_G1_Equal || fun == DefaultFunction::Bls12_381_G1_Compress
            || fun == DefaultFunction::Bls12_381_G1_Uncompress || fun
            == DefaultFunction::Bls12_381_G1_HashToGroup || fun
            == DefaultFunction::Bls12_381_G2_Add || fun == DefaultFunction::Bls12_381_G2_Neg || fun
            == DefaultFunction::Bls12_381_G2_ScalarMul || fun
            == DefaultFunction::Bls12_381_G2_Equal || fun == DefaultFunction::Bls12_381_G2_Compress
            || fun == DefaultFunction::Bls12_381_G2_Uncompress || fun
            == DefaultFunction::Bls12_381_G2_HashToGroup || fun
            == DefaultFunction::Bls12_381_MillerLoop || fun
            == DefaultFunction::Bls12_381_MulMlResult || fun
            == DefaultFunction::Bls12_381_FinalVerify,
        args@.len() == fun.spec_arity(),
        wf_args(args@),
    ensures
        ({
            let out = spec_bls(
                *costs,
                fun,
                vals_view(args@),
                budget_view(*old(budget)),
                logs_view(old(logs)@),
            );
            &&& budget_view(*final(budget)) == out.budget
            &&& logs_view(final(logs)@) == out.logs
            &&& match (r, out.res) {
                (Ok(v), Ok(vv)) => value_view(v) == vv && wf_value_exec(v) && wf_valuev(vv),
                (Err(e), Err(ee)) => e == ee,
                _ => false,
            }
        }),
{
    proof {
        assert forall|i: int| 0 <= i < args@.len() implies vals_view(args@)[i] == value_view(
            #[trigger] args@[i],
        ) by {}
    }
    match fun {
        DefaultFunction::Bls12_381_G1_Add => {
            let a = match arg_g1(&args[0]) {
                Ok(v) => v,
                Err(e) => {
                    return Err(e);
                },
            };
            let b = match arg_g1(&args[1]) {
                Ok(v) => v,
                Err(e) => {
                    return Err(e);
                },
            };
            let ems = ems2(18, 18);
            if let Err(e) = charge_exec(costs, budget, fun, &ems) {
                return Err(e);
            }
            proof {
                assert(wf_valuev(value_view(args@[0])) && wf_valuev(value_view(args@[1])));
            }
            Ok(con_value(Constant::G1Element(crate::bls::g1_add(a, b))))
        },
        DefaultFunction::Bls12_381_G1_Neg => {
            let a = match arg_g1(&args[0]) {
                Ok(v) => v,
                Err(e) => {
                    return Err(e);
                },
            };
            let ems = ems1(18);
            if let Err(e) = charge_exec(costs, budget, fun, &ems) {
                return Err(e);
            }
            proof {
                assert(wf_valuev(value_view(args@[0])));
            }
            Ok(con_value(Constant::G1Element(crate::bls::g1_neg(a))))
        },
        DefaultFunction::Bls12_381_G1_ScalarMul => {
            let k = match arg_integer(&args[0]) {
                Ok(n) => n,
                Err(e) => {
                    return Err(e);
                },
            };
            let p = match arg_g1(&args[1]) {
                Ok(v) => v,
                Err(e) => {
                    return Err(e);
                },
            };
            let ems = ems2(k.ex_mem(), 18);
            if let Err(e) = charge_exec(costs, budget, fun, &ems) {
                return Err(e);
            }
            let period = scalar_period_num();
            let (_, m) = k.div_mod_floor(&period);
            proof {
                crate::bigint::lemma_fmod_pos(k.val(), scalar_period_val());
                assert(wf_valuev(value_view(args@[1])));
            }
            let k_le = scalar_to_le32(&m);
            Ok(con_value(Constant::G1Element(crate::bls::g1_mul(&k_le, p))))
        },
        DefaultFunction::Bls12_381_G1_Equal => {
            let a = match arg_g1(&args[0]) {
                Ok(v) => v,
                Err(e) => {
                    return Err(e);
                },
            };
            let b = match arg_g1(&args[1]) {
                Ok(v) => v,
                Err(e) => {
                    return Err(e);
                },
            };
            let ems = ems2(18, 18);
            if let Err(e) = charge_exec(costs, budget, fun, &ems) {
                return Err(e);
            }
            Ok(con_value(Constant::Bool(crate::bigint::bytes_eq(a, b))))
        },
        DefaultFunction::Bls12_381_G1_Compress => {
            let a = match arg_g1(&args[0]) {
                Ok(v) => v,
                Err(e) => {
                    return Err(e);
                },
            };
            let ems = ems1(18);
            if let Err(e) = charge_exec(costs, budget, fun, &ems) {
                return Err(e);
            }
            Ok(con_value(Constant::ByteString(clone_bytes(a))))
        },
        DefaultFunction::Bls12_381_G1_Uncompress => {
            let a = match arg_bytes(&args[0]) {
                Ok(v) => v,
                Err(e) => {
                    return Err(e);
                },
            };
            let ems = ems1(crate::cost::bytes_ex_mem_exec(a.len()));
            if let Err(e) = charge_exec(costs, budget, fun, &ems) {
                return Err(e);
            }
            if a.len() != 48 {
                return Err(MachineError::BlsError);
            }
            if !crate::bls::g1_check(a) {
                return Err(MachineError::BlsError);
            }
            Ok(con_value(Constant::G1Element(clone_bytes(a))))
        },
        DefaultFunction::Bls12_381_G1_HashToGroup => {
            let msg = match arg_bytes(&args[0]) {
                Ok(v) => v,
                Err(e) => {
                    return Err(e);
                },
            };
            let dst = match arg_bytes(&args[1]) {
                Ok(v) => v,
                Err(e) => {
                    return Err(e);
                },
            };
            let ems = ems2(
                crate::cost::bytes_ex_mem_exec(msg.len()),
                crate::cost::bytes_ex_mem_exec(dst.len()),
            );
            if let Err(e) = charge_exec(costs, budget, fun, &ems) {
                return Err(e);
            }
            if dst.len() > 255 {
                return Err(MachineError::HashToCurveDstTooBig);
            }
            Ok(con_value(Constant::G1Element(crate::bls::g1_hash(msg, dst))))
        },
        DefaultFunction::Bls12_381_G2_Add => {
            let a = match arg_g2(&args[0]) {
                Ok(v) => v,
                Err(e) => {
                    return Err(e);
                },
            };
            let b = match arg_g2(&args[1]) {
                Ok(v) => v,
                Err(e) => {
                    return Err(e);
                },
            };
            let ems = ems2(36, 36);
            if let Err(e) = charge_exec(costs, budget, fun, &ems) {
                return Err(e);
            }
            proof {
                assert(wf_valuev(value_view(args@[0])) && wf_valuev(value_view(args@[1])));
            }
            Ok(con_value(Constant::G2Element(crate::bls::g2_add(a, b))))
        },
        DefaultFunction::Bls12_381_G2_Neg => {
            let a = match arg_g2(&args[0]) {
                Ok(v) => v,
                Err(e) => {
                    return Err(e);
                },
            };
            let ems = ems1(36);
            if let Err(e) = charge_exec(costs, budget, fun, &ems) {
                return Err(e);
            }
            proof {
                assert(wf_valuev(value_view(args@[0])));
            }
            Ok(con_value(Constant::G2Element(crate::bls::g2_neg(a))))
        },
        DefaultFunction::Bls12_381_G2_ScalarMul => {
            let k = match arg_integer(&args[0]) {
                Ok(n) => n,
                Err(e) => {
                    return Err(e);
                },
            };
            let p = match arg_g2(&args[1]) {
                Ok(v) => v,
                Err(e) => {
                    return Err(e);
                },
            };
            let ems = ems2(k.ex_mem(), 36);
            if let Err(e) = charge_exec(costs, budget, fun, &ems) {
                return Err(e);
            }
            let period = scalar_period_num();
            let (_, m) = k.div_mod_floor(&period);
            proof {
                crate::bigint::lemma_fmod_pos(k.val(), scalar_period_val());
                assert(wf_valuev(value_view(args@[1])));
            }
            let k_le = scalar_to_le32(&m);
            Ok(con_value(Constant::G2Element(crate::bls::g2_mul(&k_le, p))))
        },
        DefaultFunction::Bls12_381_G2_Equal => {
            let a = match arg_g2(&args[0]) {
                Ok(v) => v,
                Err(e) => {
                    return Err(e);
                },
            };
            let b = match arg_g2(&args[1]) {
                Ok(v) => v,
                Err(e) => {
                    return Err(e);
                },
            };
            let ems = ems2(36, 36);
            if let Err(e) = charge_exec(costs, budget, fun, &ems) {
                return Err(e);
            }
            Ok(con_value(Constant::Bool(crate::bigint::bytes_eq(a, b))))
        },
        DefaultFunction::Bls12_381_G2_Compress => {
            let a = match arg_g2(&args[0]) {
                Ok(v) => v,
                Err(e) => {
                    return Err(e);
                },
            };
            let ems = ems1(36);
            if let Err(e) = charge_exec(costs, budget, fun, &ems) {
                return Err(e);
            }
            Ok(con_value(Constant::ByteString(clone_bytes(a))))
        },
        DefaultFunction::Bls12_381_G2_Uncompress => {
            let a = match arg_bytes(&args[0]) {
                Ok(v) => v,
                Err(e) => {
                    return Err(e);
                },
            };
            let ems = ems1(crate::cost::bytes_ex_mem_exec(a.len()));
            if let Err(e) = charge_exec(costs, budget, fun, &ems) {
                return Err(e);
            }
            if a.len() != 96 {
                return Err(MachineError::BlsError);
            }
            if !crate::bls::g2_check(a) {
                return Err(MachineError::BlsError);
            }
            Ok(con_value(Constant::G2Element(clone_bytes(a))))
        },
        DefaultFunction::Bls12_381_G2_HashToGroup => {
            let msg = match arg_bytes(&args[0]) {
                Ok(v) => v,
                Err(e) => {
                    return Err(e);
                },
            };
            let dst = match arg_bytes(&args[1]) {
                Ok(v) => v,
                Err(e) => {
                    return Err(e);
                },
            };
            let ems = ems2(
                crate::cost::bytes_ex_mem_exec(msg.len()),
                crate::cost::bytes_ex_mem_exec(dst.len()),
            );
            if let Err(e) = charge_exec(costs, budget, fun, &ems) {
                return Err(e);
            }
            if dst.len() > 255 {
                return Err(MachineError::HashToCurveDstTooBig);
            }
            Ok(con_value(Constant::G2Element(crate::bls::g2_hash(msg, dst))))
        },
        DefaultFunction::Bls12_381_MillerLoop => {
            let a = match arg_g1(&args[0]) {
                Ok(v) => v,
                Err(e) => {
                    return Err(e);
                },
            };
            let b = match arg_g2(&args[1]) {
                Ok(v) => v,
                Err(e) => {
                    return Err(e);
                },
            };
            let ems = ems2(18, 36);
            if let Err(e) = charge_exec(costs, budget, fun, &ems) {
                return Err(e);
            }
            let mut fs: Vec<(Vec<u8>, Vec<u8>)> = Vec::new();
            fs.push((clone_bytes(a), clone_bytes(b)));
            let rc = Constant::MlResult(fs);
            proof {
                lemma_const_view_unfold(&rc);
                assert(crate::constant::const_view(rc)->MlResult_0 =~= seq![
                    (as_g1(value_view(args@[0]))->Some_0, as_g2(value_view(args@[1]))->Some_0),
                ]);
                assert(wf_valuev(value_view(args@[0])) && wf_valuev(value_view(args@[1])));
            }
            Ok(con_value(rc))
        },
        DefaultFunction::Bls12_381_MulMlResult => {
            let xs = match arg_ml(&args[0]) {
                Ok(v) => v,
                Err(e) => {
                    return Err(e);
                },
            };
            let ys = match arg_ml(&args[1]) {
                Ok(v) => v,
                Err(e) => {
                    return Err(e);
                },
            };
            let ems = ems2(72, 72);
            if let Err(e) = charge_exec(costs, budget, fun, &ems) {
                return Err(e);
            }
            let mut fs: Vec<(Vec<u8>, Vec<u8>)> = Vec::new();
            let mut i: usize = 0;
            while i < xs.len()
                invariant
                    i <= xs@.len(),
                    fs@.len() == i,
                    forall|k: int|
                        0 <= k < i ==> ((#[trigger] fs@[k]).0@, fs@[k].1@) == (
                            xs@[k].0@,
                            xs@[k].1@,
                        ),
                decreases xs@.len() - i,
            {
                fs.push((clone_bytes(&xs[i].0), clone_bytes(&xs[i].1)));
                i += 1;
            }
            let mut j: usize = 0;
            while j < ys.len()
                invariant
                    j <= ys@.len(),
                    fs@.len() == xs@.len() + j,
                    forall|k: int|
                        0 <= k < xs@.len() ==> ((#[trigger] fs@[k]).0@, fs@[k].1@) == (
                            xs@[k].0@,
                            xs@[k].1@,
                        ),
                    forall|k: int|
                        0 <= k < j ==> ((#[trigger] fs@[xs@.len() + k]).0@, fs@[xs@.len()
                            + k].1@) == (ys@[k].0@, ys@[k].1@),
                decreases ys@.len() - j,
            {
                fs.push((clone_bytes(&ys[j].0), clone_bytes(&ys[j].1)));
                j += 1;
            }
            let rc = Constant::MlResult(fs);
            proof {
                lemma_const_view_unfold(&rc);
                let xv = as_ml(value_view(args@[0]))->Some_0;
                let yv = as_ml(value_view(args@[1]))->Some_0;
                assert forall|k: int|
                    0 <= k < crate::constant::const_view(rc)->MlResult_0.len() implies
                    crate::constant::const_view(rc)->MlResult_0[k] == (xv + yv)[k] by {
                    assert(crate::constant::const_view(rc)->MlResult_0[k] == (
                        fs@[k].0@,
                        fs@[k].1@,
                    ));
                    if k < xs@.len() {
                        assert((fs@[k].0@, fs@[k].1@) == (xs@[k].0@, xs@[k].1@));
                        assert(xv[k] == (xs@[k].0@, xs@[k].1@));
                    } else {
                        assert((fs@[xs@.len() + (k - xs@.len())].0@, fs@[xs@.len() + (k
                            - xs@.len())].1@) == (ys@[k - xs@.len()].0@, ys@[k - xs@.len()].1@));
                        assert(yv[k - xs@.len()] == (ys@[k - xs@.len()].0@, ys@[k - xs@.len()].1@));
                    }
                }
                assert(crate::constant::const_view(rc)->MlResult_0 =~= xv + yv);
                assert(wf_valuev(value_view(args@[0])) && wf_valuev(value_view(args@[1])));
                let l = as_ml(value_view(args@[0]))->Some_0 + as_ml(value_view(args@[1]))->Some_0;
                assert(wf_valuev(ValueV::Con(ConstV::MlResult(l)))) by {
                    let xv = as_ml(value_view(args@[0]))->Some_0;
                    let yv = as_ml(value_view(args@[1]))->Some_0;
                    assert(crate::constant::wf_const(ConstV::MlResult(xv)));
                    assert(crate::constant::wf_const(ConstV::MlResult(yv)));
                    assert forall|k: int| 0 <= k < l.len() implies (#[trigger] l[k]).0.len() == 48
                        && l[k].1.len() == 96 && g1_ok(l[k].0) && g2_ok(l[k].1) by {
                        if k < xv.len() {
                            assert(l[k] == xv[k]);
                        } else {
                            assert(l[k] == yv[k - xv.len()]);
                        }
                    }
                }
            }
            Ok(con_value(rc))
        },
        _ => {
            let xs = match arg_ml(&args[0]) {
                Ok(v) => v,
                Err(e) => {
                    return Err(e);
                },
            };
            let ys = match arg_ml(&args[1]) {
                Ok(v) => v,
                Err(e) => {
                    return Err(e);
                },
            };
            let ems = ems2(72, 72);
            if let Err(e) = charge_exec(costs, budget, fun, &ems) {
                return Err(e);
            }
            proof {
                assert(wf_valuev(value_view(args@[0])) && wf_valuev(value_view(args@[1])));
                assert(crate::constant::wf_const(ConstV::MlResult(crate::bls::ml_view(xs@))));
                assert(crate::constant::wf_const(ConstV::MlResult(crate::bls::ml_view(ys@))));
                assert forall|i: int|
                    0 <= i < xs@.len() implies (#[trigger] xs@[i]).0@.len() == 48
                        && xs@[i].1@.len() == 96 && g1_ok(xs@[i].0@) && g2_ok(xs@[i].1@) by {
                    assert(crate::bls::ml_view(xs@)[i] == (xs@[i].0@, xs@[i].1@));
                }
                assert forall|i: int|
                    0 <= i < ys@.len() implies (#[trigger] ys@[i]).0@.len() == 48
                        && ys@[i].1@.len() == 96 && g1_ok(ys@[i].0@) && g2_ok(ys@[i].1@) by {
                    assert(crate::bls::ml_view(ys@)[i] == (ys@[i].0@, ys@[i].1@));
                }
            }
            Ok(con_value(Constant::Bool(crate::bls::final_verify(xs, ys))))
        },
    }
}


/// The arithmetic builtins return these exact integers, so their results
/// obey the ring laws: addition is associative and commutative, adding and
/// then subtracting a value cancels, and multiplication distributes over
/// addition.
pub proof fn lemma_integer_arithmetic_laws(x: int, y: int, z: int)
    ensures
        (x + y) + z == x + (y + z),
        x + y == y + x,
        (x + y) - y == x,
        x * (y + z) == x * y + x * z,
{
    assert(x * (y + z) == x * y + x * z) by (nonlinear_arith);
}

/// `UnListData` after `ListData` hands back the data the list held.
pub proof fn lemma_list_data_round_trip(ds: Seq<DataV>)
    ensures
        datas_of(data_consts(ds)) == ds,
{
    assert(datas_of(data_consts(ds)) =~= ds);
}

/// `UnMapData` after `MapData` hands back the pairs the map held.
pub proof fn lemma_map_data_round_trip(ps: Seq<(DataV, DataV)>)
    ensures
        data_pairs_of(data_pair_consts(ps)) == ps,
{
    assert forall|i: int| 0 <= i < ps.len() implies data_pairs_of(data_pair_consts(ps))[i]
        == ps[i] by {
        assert(data_pair_consts(ps)[i] == ConstV::Pair(
            Type::Data,
            Type::Data,
            Box::new(ConstV::Data(ps[i].0)),
            Box::new(ConstV::Data(ps[i].1)),
        ));
    }
    assert(data_pairs_of(data_pair_consts(ps)) =~= ps);
}

/// `ConstrData` after `UnConstrData` rebuilds the same constructor datum:
/// wrapping data back into constants undoes the projection.
pub proof fn lemma_constr_data_round_trip(items: Seq<ConstV>)
    requires
        forall|i: int| 0 <= i < items.len() ==> (#[trigger] items[i]) is Data,
    ensures
        data_consts(datas_of(items)) == items,
{
    assert(data_consts(datas_of(items)) =~= items);
}

/// The equality `EqualsData` decides is an equivalence: reflexive,
/// symmetric and transitive, with map entries compared positionally.
pub proof fn lemma_equals_data_equivalence(d1: DataV, d2: DataV, d3: DataV)
    ensures
        d1 == d1,
        (d1 == d2) <==> (d2 == d1),
        d1 == d2 && d2 == d3 ==> d1 == d3,
{
}

/// `first_oob` finds an index exactly when one is out of range.
proof fn lemma_first_oob_iff(ixs: Seq<int>, bits: int)
    ensures
        first_oob(ixs, bits) is None <==> forall|k: int| 0 <= k < ixs.len() ==> 0 <= #[trigger] ixs[k] < bits,
    decreases ixs.len(),
{
    if ixs.len() > 0 {
        lemma_first_oob_iff(ixs.drop_first(), bits);
        assert forall|k: int| 0 <= k < ixs.drop_first().len() implies ixs.drop_first()[k] == ixs[k
            + 1] by {}
        if first_oob(ixs, bits) is None {
            assert forall|k: int| 0 <= k < ixs.len() implies 0 <= #[trigger] ixs[k] < bits by {
                if k > 0 {
                    assert(ixs.drop_first()[k - 1] == ixs[k]);
                }
            }
        }
        if forall|k: int| 0 <= k < ixs.len() ==> 0 <= #[trigger] ixs[k] < bits {
            assert(0 <= ixs.first() < bits);
        }
    }
}

/// The bitstring builtins, executed; proved against `spec_bits_group`.
#[verifier::rlimit(80)]
fn call_bits(
    costs: &CostModel,
    budget: &mut ExBudget,
    logs: &mut Vec<String>,
    fun: DefaultFunction,
    args: &Vec<Value>,
) -> (r: Result<Value, MachineError>)
    requires
        costs.wf(),
        fun == DefaultFunction::IntegerToByteString || fun == DefaultFunction::ByteStringToInteger
            || fun == DefaultFunction::AndByteString || fun == DefaultFunction::OrByteString || fun
            == DefaultFunction::XorByteString || fun == DefaultFunction::ComplementByteString
            || fun == DefaultFunction::ReadBit || fun == DefaultFunction::WriteBits || fun
            == DefaultFunction::ReplicateByte || fun == DefaultFunction::ShiftByteString || fun
            == DefaultFunction::RotateByteString || fun == DefaultFunction::CountSetBits || fun
            == DefaultFunction::FindFirstSetBit,
        args@.len() == fun.spec_arity(),
        wf_args(args@),
    ensures
        ({
            let out = spec_bits_group(
                *costs,
                fun,
                vals_view(args@),
                budget_view(*old(budget)),
                logs_view(old(logs)@),
            );
            &&& budget_view(*final(budget)) == out.budget
            &&& logs_view(final(logs)@) == out.logs
            &&& match (r, out.res) {
                (Ok(v), Ok(vv)) => value_view(v) == vv && wf_value_exec(v) && wf_valuev(vv),
                (Err(e), Err(ee)) => e == ee,
                _ => false,
            }
        }),
{
    proof {
        assert forall|i: int| 0 <= i < args@.len() implies vals_view(args@)[i] == value_view(
            #[trigger] args@[i],
        ) by {}
    }
    match fun {
        DefaultFunction::IntegerToByteString => call_int_to_bytes(costs, budget, logs, args),
        DefaultFunction::ByteStringToInteger => {
            let be = match arg_bool(&args[0]) {
                Ok(v) => v,
                Err(e) => {
                    return Err(e);
                },
            };
            let b = match arg_bytes(&args[1]) {
                Ok(v) => v,
                Err(e) => {
                    return Err(e);
                },
            };
            let ems = ems2(1, crate::cost::bytes_ex_mem_exec(b.len()));
            if let Err(e) = charge_exec(costs, budget, fun, &ems) {
                return Err(e);
            }
            if be {
                Ok(con_value(Constant::Integer(normalize(false, clone_bytes(b)))))
            } else {
                proof {
                    crate::bigint::lemma_le_val_reverse(b@);
                }
                Ok(con_value(Constant::Integer(normalize(false, crate::bytes::reverse_bytes(b)))))
            }
        },
        DefaultFunction::AndByteString
        | DefaultFunction::OrByteString
        | DefaultFunction::XorByteString => {
            let pad = match arg_bool(&args[0]) {
                Ok(v) => v,
                Err(e) => {
                    return Err(e);
                },
            };
            let a = match arg_bytes(&args[1]) {
                Ok(v) => v,
                Err(e) => {
                    return Err(e);
                },
            };
            let b = match arg_bytes(&args[2]) {
                Ok(v) => v,
                Err(e) => {
                    return Err(e);
                },
            };
            let ems = ems3(
                1,
                crate::cost::bytes_ex_mem_exec(a.len()),
                crate::cost::bytes_ex_mem_exec(b.len()),
            );
            if let Err(e) = charge_exec(costs, budget, fun, &ems) {
                return Err(e);
            }
            let out = match fun {
                DefaultFunction::AndByteString => crate::bytes::and_bytes(pad, a, b),
                DefaultFunction::OrByteString => crate::bytes::or_bytes(pad, a, b),
                _ => crate::bytes::xor_bytes(pad, a, b),
            };
            proof {
                let n = zip_len(pad, a@, b@);
                if fun == DefaultFunction::AndByteString {
                    assert(out@ =~= Seq::new(n, |i: int| get_or(a@, i, 0xFF) & get_or(b@, i, 0xFF)));
                } else if fun == DefaultFunction::OrByteString {
                    assert(out@ =~= Seq::new(n, |i: int| get_or(a@, i, 0x00) | get_or(b@, i, 0x00)));
                } else {
                    assert(out@ =~= Seq::new(n, |i: int| get_or(a@, i, 0x00) ^ get_or(b@, i, 0x00)));
                }
            }
            Ok(con_value(Constant::ByteString(out)))
        },
        DefaultFunction::ComplementByteString => {
            let b = match arg_bytes(&args[0]) {
                Ok(v) => v,
                Err(e) => {
                    return Err(e);
                },
            };
            let ems = ems1(crate::cost::bytes_ex_mem_exec(b.len()));
            if let Err(e) = charge_exec(costs, budget, fun, &ems) {
                return Err(e);
            }
            let out = crate::bytes::complement_bytes(b);
            proof {
                assert(out@ =~= Seq::new(b@.len(), |i: int| b@[i] ^ 0xFF));
            }
            Ok(con_value(Constant::ByteString(out)))
        },
        DefaultFunction::ReadBit => {
            let b = match arg_bytes(&args[0]) {
                Ok(v) => v,
                Err(e) => {
                    return Err(e);
                },
            };
            let j = match arg_integer(&args[1]) {
                Ok(n) => n,
                Err(e) => {
                    return Err(e);
                },
            };
            let ems = ems2(crate::cost::bytes_ex_mem_exec(b.len()), j.ex_mem());
            if let Err(e) = charge_exec(costs, budget, fun, &ems) {
                return Err(e);
            }
            if b.len() == 0 {
                return Err(MachineError::EmptyByteArray);
            }
            if j.is_negative() {
                return Err(MachineError::ReadBitOutOfBounds);
            }
            let eight_len = BigNum::from_u64(8).times(&BigNum::from_u64(b.len() as u64));
            if !j.lt(&eight_len) {
                return Err(MachineError::ReadBitOutOfBounds);
            }
            let eight = BigNum::from_u64(8);
            let (q, m) = j.div_mod_floor(&eight);
            proof {
                crate::bigint::lemma_fmod_pos(j.val(), 8);
                assert(q.val() == j.val() / 8);
                assert(q.val() < b@.len()) by (nonlinear_arith)
                    requires
                        q.val() == j.val() / 8,
                        0 <= j.val() < 8 * b@.len(),
                ;
            }
            let qix = match q.to_u64_opt() {
                Some(u) => u as usize,
                None => {
                    proof {
                        assert(false);
                    }
                    0
                },
            };
            let off = match m.to_u64_opt() {
                Some(u) => u as u8,
                None => {
                    proof {
                        assert(false);
                    }
                    0
                },
            };
            let bitv = (b[b.len() - 1 - qix] >> off) & 1 == 1;
            proof {
                assert(bit_at(b@, j.val()) == bitv);
            }
            Ok(con_value(Constant::Bool(bitv)))
        },
        DefaultFunction::WriteBits => call_write_bits(costs, budget, logs, args),
        DefaultFunction::ReplicateByte => {
            let size_n = match arg_integer(&args[0]) {
                Ok(n) => n,
                Err(e) => {
                    return Err(e);
                },
            };
            let byte_n = match arg_integer(&args[1]) {
                Ok(n) => n,
                Err(e) => {
                    return Err(e);
                },
            };
            if size_n.is_negative() {
                return Err(MachineError::ReplicateByteNegativeSize);
            }
            let size: usize = match size_n.to_u64_opt() {
                Some(u) => {
                    if u > 8192 {
                        return Err(MachineError::ReplicateByteSizeTooBig);
                    }
                    u as usize
                },
                None => {
                    return Err(MachineError::ReplicateByteSizeTooBig);
                },
            };
            let sem_size: i64 = if size == 0 {
                0
            } else {
                ((size - 1) / 8 + 1) as i64
            };
            let ems = ems2(sem_size, byte_n.ex_mem());
            if let Err(e) = charge_exec(costs, budget, fun, &ems) {
                return Err(e);
            }
            if size == 0 && byte_n.mag.len() > 8192 {
                proof {
                    crate::bigint::lemma_byte_len_be(byte_n.mag@);
                }
                return Err(MachineError::ReplicateByteSizeTooBig);
            }
            proof {
                crate::bigint::lemma_byte_len_be(byte_n.mag@);
            }
            if byte_n.is_negative() {
                return Err(MachineError::ReplicateByteNegativeInput);
            }
            let byte: u8 = match byte_n.to_u64_opt() {
                Some(u) => {
                    if u > 255 {
                        return Err(MachineError::OutsideByteBounds);
                    }
                    u as u8
                },
                None => {
                    return Err(MachineError::OutsideByteBounds);
                },
            };
            let out = crate::bytes::replicate_bytes(size, byte);
            Ok(con_value(Constant::ByteString(out)))
        },
        DefaultFunction::ShiftByteString => {
            let b = match arg_bytes(&args[0]) {
                Ok(v) => v,
                Err(e) => {
                    return Err(e);
                },
            };
            let n = match arg_integer(&args[1]) {
                Ok(v) => v,
                Err(e) => {
                    return Err(e);
                },
            };
            let abs_n = BigNum { neg: false, mag: clone_bytes(&n.mag) };
            let sem = match abs_n.to_u64_opt() {
                Some(u) => {
                    if u > 0x7fff_ffff_ffff_ffff_u64 {
                        i64::MAX
                    } else {
                        u as i64
                    }
                },
                None => i64::MAX,
            };
            let ems = ems2(crate::cost::bytes_ex_mem_exec(b.len()), sem);
            if let Err(e) = charge_exec(costs, budget, fun, &ems) {
                return Err(e);
            }
            let eight_len = BigNum::from_u64(8).times(&BigNum::from_u64(b.len() as u64));
            if !abs_n.lt(&eight_len) {
                let out = crate::bytes::replicate_bytes(b.len(), 0);
                proof {
                    assert(out@ =~= Seq::new(b@.len(), |i: int| 0u8));
                }
                return Ok(con_value(Constant::ByteString(out)));
            }
            let amount: u128 = match abs_n.to_u128_opt() {
                Some(u) => u,
                None => {
                    proof {
                        assert(abs_n.val() < 8 * b@.len());
                        assert(8 * b@.len() <= u128::MAX) by {
                            assert(b@.len() <= usize::MAX);
                        }
                        assert(false);
                    }
                    0
                },
            };
            let left = !n.is_negative();
            let out = crate::bytes::shift_bytes(b, left, amount);
            proof {
                let nv = n.val();
                let f = |j: int| 0 <= j - nv < 8 * b@.len() && bit_at(b@, j - nv);
                assert forall|j: int| 0 <= j < 8 * b@.len() implies bit_at(out@, j)
                    == f(j) by {
                    crate::bytes::lemma_bits_to_bytes_bit_at(b@.len(), f, j);
                }
                assert forall|j: int| 0 <= j < 8 * b@.len() implies bit_at(out@, j) == bit_at(
                    bits_to_bytes(b@.len(), f),
                    j,
                ) by {
                    crate::bytes::lemma_bits_to_bytes_bit_at(b@.len(), f, j);
                }
                crate::bytes::lemma_bytes_bit_ext(out@, bits_to_bytes(b@.len(), f));
            }
            Ok(con_value(Constant::ByteString(out)))
        },
        DefaultFunction::RotateByteString => {
            let b = match arg_bytes(&args[0]) {
                Ok(v) => v,
                Err(e) => {
                    return Err(e);
                },
            };
            let n = match arg_integer(&args[1]) {
                Ok(v) => v,
                Err(e) => {
                    return Err(e);
                },
            };
            let abs_n = BigNum { neg: false, mag: clone_bytes(&n.mag) };
            let sem = match abs_n.to_u64_opt() {
                Some(u) => {
                    if u > 0x7fff_ffff_ffff_ffff_u64 {
                        i64::MAX
                    } else {
                        u as i64
                    }
                },
                None => i64::MAX,
            };
            let ems = ems2(crate::cost::bytes_ex_mem_exec(b.len()), sem);
            if let Err(e) = charge_exec(costs, budget, fun, &ems) {
                return Err(e);
            }
            if b.len() == 0 {
                return Ok(con_value(Constant::ByteString(clone_bytes(b))));
            }
            let eight_len = BigNum::from_u64(8).times(&BigNum::from_u64(b.len() as u64));
            let (_, m) = n.div_mod_floor(&eight_len);
            proof {
                crate::bigint::lemma_fmod_pos(n.val(), 8 * b@.len() as int);
            }
            if m.is_zero() {
                return Ok(con_value(Constant::ByteString(clone_bytes(b))));
            }
            let amount: u128 = match m.to_u128_opt() {
                Some(u) => u,
                None => {
                    proof {
                        assert(m.val() < 8 * b@.len());
                        assert(8 * b@.len() <= u128::MAX) by {
                            assert(b@.len() <= usize::MAX);
                        }
                        assert(false);
                    }
                    0
                },
            };
            let out = crate::bytes::rotate_bytes(b, amount);
            proof {
                let rv = m.val();
                let f = |j: int| bit_at(b@, (j - rv) % (8 * b@.len() as int));
                assert forall|j: int| 0 <= j < 8 * b@.len() implies bit_at(out@, j) == bit_at(
                    bits_to_bytes(b@.len(), f),
                    j,
                ) by {
                    crate::bytes::lemma_bits_to_bytes_bit_at(b@.len(), f, j);
                }
                crate::bytes::lemma_bytes_bit_ext(out@, bits_to_bytes(b@.len(), f));
            }
            Ok(con_value(Constant::ByteString(out)))
        },
        DefaultFunction::CountSetBits => {
            let b = match arg_bytes(&args[0]) {
                Ok(v) => v,
                Err(e) => {
                    return Err(e);
                },
            };
            let ems = ems1(crate::cost::bytes_ex_mem_exec(b.len()));
            if let Err(e) = charge_exec(costs, budget, fun, &ems) {
                return Err(e);
            }
            let w = crate::bytes::popcount(b);
            Ok(con_value(Constant::Integer(BigNum::from_u64(w))))
        },
        _ => {
            let b = match arg_bytes(&args[0]) {
                Ok(v) => v,
                Err(e) => {
                    return Err(e);
                },
            };
            let ems = ems1(crate::cost::bytes_ex_mem_exec(b.len()));
            if let Err(e) = charge_exec(costs, budget, fun, &ems) {
                return Err(e);
            }
            match crate::bytes::find_first_set(b) {
                Some((pos, k)) => {
                    proof {
                        crate::bytes::lemma_ffs_from_found(b@, 0, 8 * pos + k);
                    }
                    let v = BigNum::from_u64(pos as u64).times(&BigNum::from_u64(8)).plus(
                        &BigNum::from_u64(k as u64),
                    );
                    Ok(con_value(Constant::Integer(v)))
                },
                None => {
                    proof {
                        crate::bytes::lemma_ffs_from_none(b@, 0);
                    }
                    Ok(con_value(Constant::Integer(BigNum::from_i64(-1))))
                },
            }
        },
    }
}

/// `IntegerToByteString`, executed.
#[verifier::rlimit(50)]
fn call_int_to_bytes(
    costs: &CostModel,
    budget: &mut ExBudget,
    logs: &mut Vec<String>,
    args: &Vec<Value>,
) -> (r: Result<Value, MachineError>)
    requires
        costs.wf(),
        args@.len() == 3,
        wf_args(args@),
    ensures
        ({
            let out = spec_bits_group(
                *costs,
                DefaultFunction::IntegerToByteString,
                vals_view(args@),
                budget_view(*old(budget)),
                logs_view(old(logs)@),
            );
            &&& budget_view(*final(budget)) == out.budget
            &&& logs_view(final(logs)@) == out.logs
            &&& match (r, out.res) {
                (Ok(v), Ok(vv)) => value_view(v) == vv && wf_value_exec(v) && wf_valuev(vv),
                (Err(e), Err(ee)) => e == ee,
                _ => false,
            }
        }),
{
    proof {
        assert forall|i: int| 0 <= i < args@.len() implies vals_view(args@)[i] == value_view(
            #[trigger] args@[i],
        ) by {}
    }
    let fun = DefaultFunction::IntegerToByteString;
    let be = match arg_bool(&args[0]) {
        Ok(v) => v,
        Err(e) => {
            return Err(e);
        },
    };
    let size_n = match arg_integer(&args[1]) {
        Ok(n) => n,
        Err(e) => {
            return Err(e);
        },
    };
    let input = match arg_integer(&args[2]) {
        Ok(n) => n,
        Err(e) => {
            return Err(e);
        },
    };
    if size_n.is_negative() {
        return Err(MachineError::IntegerToByteStringNegativeSize);
    }
    let size: usize = match size_n.to_u64_opt() {
        Some(u) => {
            if u > 8192 {
                return Err(MachineError::IntegerToByteStringSizeTooBig);
            }
            u as usize
        },
        None => {
            return Err(MachineError::IntegerToByteStringSizeTooBig);
        },
    };
    let sem_size: i64 = if size == 0 {
        0
    } else {
        ((size - 1) / 8 + 1) as i64
    };
    let ems = ems3(1, sem_size, input.ex_mem());
    if let Err(e) = charge_exec(costs, budget, fun, &ems) {
        return Err(e);
    }
    proof {
        crate::bigint::lemma_byte_len_be(input.mag@);
    }
    if size == 0 && input.mag.len() > 8192 {
        return Err(MachineError::IntegerToByteStringSizeTooBig);
    }
    if input.is_negative() {
        return Err(MachineError::IntegerToByteStringNegativeInput);
    }
    if input.is_zero() {
        let out = crate::bytes::replicate_bytes(size, 0);
        proof {
            assert(out@ =~= Seq::new(size as nat, |i: int| 0u8));
        }
        return Ok(con_value(Constant::ByteString(out)));
    }
    proof {
        crate::bigint::lemma_mag_is_be_bytes(*input);
    }
    let bytes = if be {
        clone_bytes(&input.mag)
    } else {
        crate::bytes::reverse_bytes(&input.mag)
    };
    if size != 0 && bytes.len() > size {
        return Err(MachineError::IntegerToByteStringSizeTooSmall);
    }
    if size == 0 {
        return Ok(con_value(Constant::ByteString(bytes)));
    }
    let pad_count = size - bytes.len();
    if be {
        let out = crate::bytes::pad_left_zeros(&bytes, pad_count);
        proof {
            assert(out@ =~= Seq::new(pad_count as nat, |i: int| 0u8) + bytes@);
        }
        Ok(con_value(Constant::ByteString(out)))
    } else {
        let zeros = crate::bytes::replicate_bytes(pad_count, 0);
        let out = crate::bytes::append_bytes(&bytes, &zeros);
        proof {
            assert(zeros@ =~= Seq::new(pad_count as nat, |i: int| 0u8));
        }
        Ok(con_value(Constant::ByteString(out)))
    }
}

/// `WriteBits`, executed.
#[verifier::rlimit(50)]
fn call_write_bits(
    costs: &CostModel,
    budget: &mut ExBudget,
    logs: &mut Vec<String>,
    args: &Vec<Value>,
) -> (r: Result<Value, MachineError>)
    requires
        costs.wf(),
        args@.len() == 3,
        wf_args(args@),
    ensures
        ({
            let out = spec_bits_group(
                *costs,
                DefaultFunction::WriteBits,
                vals_view(args@),
                budget_view(*old(budget)),
                logs_view(old(logs)@),
            );
            &&& budget_view(*final(budget)) == out.budget
            &&& logs_view(final(logs)@) == out.logs
            &&& match (r, out.res) {
                (Ok(v), Ok(vv)) => value_view(v) == vv && wf_value_exec(v) && wf_valuev(vv),
                (Err(e), Err(ee)) => e == ee,
                _ => false,
            }
        }),
{
    proof {
        assert forall|i: int| 0 <= i < args@.len() implies vals_view(args@)[i] == value_view(
            #[trigger] args@[i],
        ) by {}
    }
    let fun = DefaultFunction::WriteBits;
    let b = match arg_bytes(&args[0]) {
        Ok(v) => v,
        Err(e) => {
            return Err(e);
        },
    };
    let (t, items) = match arg_list(&args[1], Type::Integer) {
        Ok(p) => p,
        Err(e) => {
            return Err(e);
        },
    };
    if !type_eq(t, &Type::Integer) {
        return Err(MachineError::TypeMismatch(Type::List(Box::new(Type::Integer))));
    }
    let bit = match arg_bool(&args[2]) {
        Ok(v) => v,
        Err(e) => {
            return Err(e);
        },
    };
    let ems = ems3(crate::cost::bytes_ex_mem_exec(b.len()), const_list_ex_mem(items), 1);
    proof {
        let l = as_list(value_view(args@[1]))->Some_0;
        assert(Seq::new(items@.len(), |i: int| crate::constant::const_view(items@[i])) =~= l.1);
    }
    if let Err(e) = charge_exec(costs, budget, fun, &ems) {
        return Err(e);
    }
    let ghost l = as_list(value_view(args@[1]))->Some_0;
    let ghost ixs = ints_of(l.1);
    proof {
        assert(wf_valuev(value_view(args@[1])));
        assert(crate::constant::wf_const(ConstV::List(l.0, l.1)));
        assert forall|k: int| 0 <= k < items@.len() implies crate::constant::const_view(
            #[trigger] items@[k],
        ) is Integer by {
            assert(crate::constant::vtype_of(l.1[k]) == Type::Integer);
            assert(l.1[k] == crate::constant::const_view(items@[k]));
            crate::constant::lemma_vtype_integer(l.1[k]);
        }
        lemma_first_oob_iff(ixs, 8 * b@.len() as int);
    }
    let mut cur = clone_bytes(b);
    let eight_len = BigNum::from_u64(8).times(&BigNum::from_u64(b.len() as u64));
    let eight = BigNum::from_u64(8);
    let mut i: usize = 0;
    while i < items.len()
        invariant
            i <= items@.len(),
            cur@.len() == b@.len(),
            ({
                let out = spec_bits_group(
                    *costs,
                    DefaultFunction::WriteBits,
                    vals_view(args@),
                    budget_view(*old(budget)),
                    logs_view(old(logs)@),
                );
                &&& out.budget == budget_view(*budget)
                &&& out.logs == logs_view(logs@)
                &&& (first_oob(ixs, 8 * b@.len() as int) is Some ==> out.res == Err::<
                    ValueV,
                    MachineError,
                >(MachineError::WriteBitsOutOfBounds))
                &&& (first_oob(ixs, 8 * b@.len() as int) is None ==> out.res == Ok::<
                    ValueV,
                    MachineError,
                >(ValueV::Con(ConstV::ByteString(write_bits_seq(b@, ixs, bit)))))
            }),
            ixs == ints_of(l.1),
            ixs.len() == items@.len(),
            l == as_list(vals_view(args@)[1])->Some_0,
            l.1.len() == items@.len(),
            forall|k: int|
                0 <= k < items@.len() ==> l.1[k] == crate::constant::const_view(
                    #[trigger] items@[k],
                ),
            forall|k: int| 0 <= k < items@.len() ==> wf_const_exec(#[trigger] items@[k]),
            forall|k: int|
                0 <= k < items@.len() ==> crate::constant::const_view(
                    #[trigger] items@[k],
                ) is Integer,
            forall|k: int| 0 <= k < i ==> 0 <= #[trigger] ixs[k] < 8 * b@.len(),
            cur@ == write_bits_seq(b@, ixs.subrange(0, i as int), bit),
            eight_len.wf() && eight_len.val() == 8 * b@.len(),
            eight.wf() && eight.val() == 8,
        decreases items@.len() - i,
    {
        proof {
            assert(ixs.subrange(0, i as int).len() == i);
            if i == 0 {
                assert(ixs.subrange(0, 0) =~= Seq::<int>::empty());
            }
        }
        let cur_len = cur.len();
        let c = &items[i];
        proof {
            lemma_const_view_unfold(c);
            lemma_wf_const_unfold(c);
            assert(ixs[i as int] == crate::constant::const_view(items@[i as int])->Integer_0);
            assert(cur@.len() == cur_len);
        }
        match c {
            Constant::Integer(n) => {
                if n.is_negative() {
                    proof {
                        lemma_first_oob_iff(ixs, 8 * b@.len() as int);
                        assert(!(0 <= ixs[i as int] < 8 * b@.len()));
                    }
                    return Err(MachineError::WriteBitsOutOfBounds);
                }
                if !n.lt(&eight_len) {
                    proof {
                        lemma_first_oob_iff(ixs, 8 * b@.len() as int);
                        assert(!(0 <= ixs[i as int] < 8 * b@.len()));
                    }
                    return Err(MachineError::WriteBitsOutOfBounds);
                }
                let (q, m) = n.div_mod_floor(&eight);
                proof {
                    crate::bigint::lemma_fmod_pos(n.val(), 8);
                    vstd::arithmetic::div_mod::lemma_fundamental_div_mod(n.val(), 8);
                    assert(q.val() == n.val() / 8);
                    assert(q.val() < cur@.len()) by (nonlinear_arith)
                        requires
                            q.val() == n.val() / 8,
                            0 <= n.val() < 8 * cur@.len(),
                    ;
                    assert(q.val() < cur_len);
                }
                let qix = match q.to_u64_opt() {
                    Some(u) => u as usize,
                    None => {
                        proof {
                            assert(false);
                        }
                        0
                    },
                };
                let off = match m.to_u64_opt() {
                    Some(u) => u as u8,
                    None => {
                        proof {
                            assert(false);
                        }
                        0
                    },
                };
                crate::bytes::set_bit_split(&mut cur, qix, off, bit);
                proof {
                    assert(8 * qix + off == n.val());
                    assert(ixs.subrange(0, i as int + 1).drop_last() =~= ixs.subrange(
                        0,
                        i as int,
                    ));
                    assert(ixs.subrange(0, i as int + 1).last() == ixs[i as int]);
                }
            },
            _ => {
                proof {
                    assert(false);
                }
            },
        }
        i += 1;
    }
    proof {
        assert(ixs.subrange(0, ixs.len() as int) =~= ixs);
        lemma_first_oob_iff(ixs, 8 * b@.len() as int);
    }
    Ok(con_value(Constant::ByteString(cur)))
}


/// Dispatches one saturated builtin: the executable counterpart of
/// `spec_call`, debiting the budget and extending the log exactly as the
/// specification says.
#[verifier::rlimit(50)]
pub fn call_builtin(
    costs: &CostModel,
    semantics: BuiltinSemantics,
    budget: &mut ExBudget,
    logs: &mut Vec<String>,
    fun: DefaultFunction,
    args: &Vec<Value>,
) -> (r: Result<Value, MachineError>)
    requires
        costs.wf(),
        args@.len() == fun.spec_arity(),
        wf_args(args@),
    ensures
        ({
            let out = spec_call(
                *costs,
                semantics,
                fun,
                vals_view(args@),
                budget_view(*old(budget)),
                logs_view(old(logs)@),
            );
            &&& budget_view(*final(budget)) == out.budget
            &&& logs_view(final(logs)@) == out.logs
            &&& match (r, out.res) {
                (Ok(v), Ok(vv)) => value_view(v) == vv && wf_value_exec(v) && wf_valuev(vv),
                (Err(e), Err(ee)) => e == ee,
                _ => false,
            }
        }),
        is_hash_fun(fun) && r is Ok ==> value_view(r->Ok_0) is Con && value_view(
            r->Ok_0,
        )->Con_0 is ByteString && value_view(r->Ok_0)->Con_0->ByteString_0.len() == digest_len(
            fun,
        ),
{
    proof {
        reveal(crate::runtime::spec_call);
    }
    match fun {
        DefaultFunction::AddInteger
        | DefaultFunction::SubtractInteger
        | DefaultFunction::MultiplyInteger
        | DefaultFunction::DivideInteger
        | DefaultFunction::QuotientInteger
        | DefaultFunction::RemainderInteger
        | DefaultFunction::ModInteger
        | DefaultFunction::EqualsInteger
        | DefaultFunction::LessThanInteger
        | DefaultFunction::LessThanEqualsInteger => call_int(costs, budget, logs, fun, args),
        DefaultFunction::ConsByteString => call_cons_byte(costs, budget, logs, semantics, args),
        DefaultFunction::AppendByteString
        | DefaultFunction::SliceByteString
        | DefaultFunction::LengthOfByteString
        | DefaultFunction::IndexByteString
        | DefaultFunction::EqualsByteString
        | DefaultFunction::LessThanByteString
        | DefaultFunction::LessThanEqualsByteString => call_bytes(costs, budget, logs, fun, args),
        DefaultFunction::Sha2_256
        | DefaultFunction::Sha3_256
        | DefaultFunction::Blake2b_224
        | DefaultFunction::Blake2b_256
        | DefaultFunction::Keccak_256
        | DefaultFunction::Ripemd_160 => call_hash(costs, budget, logs, fun, args),
        DefaultFunction::VerifyEd25519Signature
        | DefaultFunction::VerifyEcdsaSecp256k1Signature
        | DefaultFunction::VerifySchnorrSecp256k1Signature => call_sig(
            costs,
            budget,
            logs,
            fun,
            args,
        ),
        DefaultFunction::AppendString
        | DefaultFunction::EqualsString
        | DefaultFunction::EncodeUtf8
        | DefaultFunction::DecodeUtf8 => call_string(costs, budget, logs, fun, args),
        DefaultFunction::IfThenElse | DefaultFunction::ChooseUnit | DefaultFunction::Trace => {
            call_control(costs, budget, logs, fun, args)
        },
        DefaultFunction::FstPair
        | DefaultFunction::SndPair
        | DefaultFunction::ChooseList
        | DefaultFunction::MkCons
        | DefaultFunction::HeadList
        | DefaultFunction::TailList
        | DefaultFunction::NullList => call_list(costs, budget, logs, fun, args),
        DefaultFunction::ChooseData
        | DefaultFunction::ConstrData
        | DefaultFunction::MapData
        | DefaultFunction::ListData
        | DefaultFunction::IData
        | DefaultFunction::BData
        | DefaultFunction::UnConstrData
        | DefaultFunction::UnMapData
        | DefaultFunction::UnListData
        | DefaultFunction::UnIData
        | DefaultFunction::UnBData
        | DefaultFunction::EqualsData
        | DefaultFunction::SerialiseData
        | DefaultFunction::MkPairData
        | DefaultFunction::MkNilData
        | DefaultFunction::MkNilPairData => call_data(costs, budget, logs, fun, args),
        DefaultFunction::Bls12_381_G1_Add
        | DefaultFunction::Bls12_381_G1_Neg
        | DefaultFunction::Bls12_381_G1_ScalarMul
        | DefaultFunction::Bls12_381_G1_Equal
        | DefaultFunction::Bls12_381_G1_Compress
        | DefaultFunction::Bls12_381_G1_Uncompress
        | DefaultFunction::Bls12_381_G1_HashToGroup
        | DefaultFunction::Bls12_381_G2_Add
        | DefaultFunction::Bls12_381_G2_Neg
        | DefaultFunction::Bls12_381_G2_ScalarMul
        | DefaultFunction::Bls12_381_G2_Equal
        | DefaultFunction::Bls12_381_G2_Compress
        | DefaultFunction::Bls12_381_G2_Uncompress
        | DefaultFunction::Bls12_381_G2_HashToGroup
        | DefaultFunction::Bls12_381_MillerLoop
        | DefaultFunction::Bls12_381_MulMlResult
        | DefaultFunction::Bls12_381_FinalVerify => call_bls(costs, budget, logs, fun, args),
        DefaultFunction::IntegerToByteString
        | DefaultFunction::ByteStringToInteger
        | DefaultFunction::AndByteString
        | DefaultFunction::OrByteString
        | DefaultFunction::XorByteString
        | DefaultFunction::ComplementByteString
        | DefaultFunction::ReadBit
        | DefaultFunction::WriteBits
        | DefaultFunction::ReplicateByte
        | DefaultFunction::ShiftByteString
        | DefaultFunction::RotateByteString
        | DefaultFunction::CountSetBits
        | DefaultFunction::FindFirstSetBit => call_bits(costs, budget, logs, fun, args),
    }
}

} // verus!
