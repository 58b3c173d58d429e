//! The error taxonomy: every failure is fatal and terminates evaluation.

use vstd::prelude::*;
use crate::constant::Type;
use crate::term::DeBruijn;

verus! {

#[derive(Debug)]
pub enum MachineError {
    /// A budget component went negative at a debit.
    OutOfBudget,
    /// An explicit `Error` term was reached.
    EvaluationFailure,
    /// A variable with no binding in the environment.
    OpenTermEvaluated(DeBruijn),
    /// Applied a value that is neither a function nor a builtin.
    NonFunctionApplication,
    /// Forced a value that is neither a delay nor a builtin.
    NonPolymorphicInstantiation,
    /// A builtin was over-applied, applied before its forces, or forced
    /// beyond its force arity.
    UnexpectedBuiltinTermArgument,
    /// The final value is a builtin that never saturated.
    UnderAppliedBuiltin,
    /// A case scrutinee that is not a constructor value.
    NonConstrScrutinized,
    /// The constructor tag names no branch.
    MissingCaseBranch,
    /// A builtin argument was not a constant.
    NotAConstant,
    /// A builtin argument had the wrong constant shape; carries the shape
    /// that was expected.
    TypeMismatch(Type),
    /// Head or tail of an empty list.
    EmptyList,
    DivisionByZero,
    ByteStringOutOfBounds,
    ByteStringConsNotAByte,
    DecodeUtf8Error,
    UnexpectedEd25519PublicKeyLength(usize),
    UnexpectedEd25519SignatureLength(usize),
    Secp256k1Error,
    HashToCurveDstTooBig,
    /// An invalid compressed BLS12-381 encoding.
    BlsError,
    /// A constructor tag beyond the machine's unsigned word.
    ConstrTagOutOfRange,
    IntegerToByteStringNegativeSize,
    IntegerToByteStringSizeTooBig,
    IntegerToByteStringNegativeInput,
    IntegerToByteStringSizeTooSmall,
    ReplicateByteNegativeSize,
    ReplicateByteSizeTooBig,
    ReplicateByteNegativeInput,
    OutsideByteBounds,
    EmptyByteArray,
    ReadBitOutOfBounds,
    WriteBitsOutOfBounds,
    /// A builtin whose specification is deferred; never implemented here.
    UnsupportedBuiltin,
}

} // verus!
