use std::rc::Rc;
use uplc::bigint::BigNum;
use uplc::builtin::DefaultFunction;
use uplc::constant::{Constant, PlutusData, Type};
use uplc::cost::{CostModel, ExBudget};
use uplc::error::MachineError;
use uplc::machine::Machine;
use uplc::runtime::BuiltinSemantics;
use uplc::value::{clone_value, Runtime, Value};

fn machine() -> Machine {
    Machine::new(
        CostModel::default_model(),
        BuiltinSemantics::V2,
        ExBudget { cpu: 10_000_000, mem: 10_000_000 },
    )
}

fn con(c: Constant) -> Value {
    Value::Con(Rc::new(c))
}

fn int_value(x: i64) -> Value {
    con(Constant::Integer(BigNum::from_i64(x)))
}

fn bytes_value(b: &[u8]) -> Value {
    con(Constant::ByteString(b.to_vec()))
}

fn saturated(fun: DefaultFunction, args: Vec<Value>) -> Runtime {
    Runtime { args, fun, forces: fun.force_count() }
}

fn run(m: &mut Machine, fun: DefaultFunction, args: Vec<Value>) -> Result<Value, MachineError> {
    m.call(&saturated(fun, args))
}

fn unwrap_int(v: &Value) -> BigNum {
    match v {
        Value::Con(c) => match &**c {
            Constant::Integer(n) => BigNum { neg: n.neg, mag: n.mag.clone() },
            _ => panic!("expected an integer"),
        },
        _ => panic!("expected a constant"),
    }
}

fn unwrap_bytes(v: &Value) -> Vec<u8> {
    match v {
        Value::Con(c) => match &**c {
            Constant::ByteString(b) => b.clone(),
            _ => panic!("expected bytes"),
        },
        _ => panic!("expected a constant"),
    }
}

fn unwrap_bool(v: &Value) -> bool {
    match v {
        Value::Con(c) => match &**c {
            Constant::Bool(b) => *b,
            _ => panic!("expected a bool"),
        },
        _ => panic!("expected a constant"),
    }
}

fn int_eq(a: &BigNum, b: &BigNum) -> bool {
    a.neg == b.neg && a.mag == b.mag
}

#[test]
fn addition_is_associative_and_commutative() {
    let mut m = machine();
    let ab = run(&mut m, DefaultFunction::AddInteger, vec![int_value(2), int_value(3)]).unwrap();
    let ab_c =
        run(&mut m, DefaultFunction::AddInteger, vec![ab, int_value(4)]).unwrap();
    let bc = run(&mut m, DefaultFunction::AddInteger, vec![int_value(3), int_value(4)]).unwrap();
    let a_bc = run(&mut m, DefaultFunction::AddInteger, vec![int_value(2), bc]).unwrap();
    assert!(int_eq(&unwrap_int(&ab_c), &unwrap_int(&a_bc)));
    let xy = run(&mut m, DefaultFunction::AddInteger, vec![int_value(-7), int_value(11)]).unwrap();
    let yx = run(&mut m, DefaultFunction::AddInteger, vec![int_value(11), int_value(-7)]).unwrap();
    assert!(int_eq(&unwrap_int(&xy), &unwrap_int(&yx)));
}

#[test]
fn subtraction_cancels_addition_and_multiplication_distributes() {
    let mut m = machine();
    let sum = run(&mut m, DefaultFunction::AddInteger, vec![int_value(41), int_value(17)]).unwrap();
    let back =
        run(&mut m, DefaultFunction::SubtractInteger, vec![sum, int_value(17)]).unwrap();
    assert!(int_eq(&unwrap_int(&back), &BigNum::from_i64(41)));
    let bc = run(&mut m, DefaultFunction::AddInteger, vec![int_value(5), int_value(-9)]).unwrap();
    let lhs = run(&mut m, DefaultFunction::MultiplyInteger, vec![int_value(6), bc]).unwrap();
    let xb =
        run(&mut m, DefaultFunction::MultiplyInteger, vec![int_value(6), int_value(5)]).unwrap();
    let xc =
        run(&mut m, DefaultFunction::MultiplyInteger, vec![int_value(6), int_value(-9)]).unwrap();
    let rhs = run(&mut m, DefaultFunction::AddInteger, vec![xb, xc]).unwrap();
    assert!(int_eq(&unwrap_int(&lhs), &unwrap_int(&rhs)));
}

#[test]
fn if_then_else_debits_its_own_cost_once() {
    let mut m = machine();
    let before = m.budget;
    let cond = con(Constant::Bool(false));
    let r = run(&mut m, DefaultFunction::IfThenElse, vec![cond, int_value(1), int_value(2)])
        .unwrap();
    assert!(int_eq(&unwrap_int(&r), &BigNum::from_i64(2)));
    assert!(m.budget.cpu < before.cpu);
}

#[test]
fn rotate_then_unrotate_is_identity() {
    let mut m = machine();
    let b = vec![0xAB, 0xCD, 0x01];
    let once = run(
        &mut m,
        DefaultFunction::RotateByteString,
        vec![bytes_value(&b), int_value(5)],
    )
    .unwrap();
    let back = run(&mut m, DefaultFunction::RotateByteString, vec![once, int_value(-5)]).unwrap();
    assert_eq!(unwrap_bytes(&back), b);
}

#[test]
fn shifting_out_every_bit_zeroes_the_string() {
    let mut m = machine();
    let b = vec![0xFF, 0x10];
    let r = run(
        &mut m,
        DefaultFunction::ShiftByteString,
        vec![bytes_value(&b), int_value(16)],
    )
    .unwrap();
    assert_eq!(unwrap_bytes(&r), vec![0, 0]);
}

#[test]
fn complement_is_an_involution_and_splits_the_bits() {
    let mut m = machine();
    let b = vec![0b1010_0110, 0x00, 0xFF];
    let c = run(&mut m, DefaultFunction::ComplementByteString, vec![bytes_value(&b)]).unwrap();
    let cc = run(&mut m, DefaultFunction::ComplementByteString, vec![clone_value(&c)]).unwrap();
    assert_eq!(unwrap_bytes(&cc), b);
    let n1 = run(&mut m, DefaultFunction::CountSetBits, vec![bytes_value(&b)]).unwrap();
    let n2 = run(&mut m, DefaultFunction::CountSetBits, vec![c]).unwrap();
    let total = run(&mut m, DefaultFunction::AddInteger, vec![n1, n2]).unwrap();
    assert!(int_eq(&unwrap_int(&total), &BigNum::from_i64(24)));
}

#[test]
fn data_constructors_and_projections_round_trip() {
    let mut m = machine();
    let i = run(&mut m, DefaultFunction::IData, vec![int_value(42)]).unwrap();
    let back = run(&mut m, DefaultFunction::UnIData, vec![i]).unwrap();
    assert!(int_eq(&unwrap_int(&back), &BigNum::from_i64(42)));

    let b = run(&mut m, DefaultFunction::BData, vec![bytes_value(&[9, 8])]).unwrap();
    let back = run(&mut m, DefaultFunction::UnBData, vec![b]).unwrap();
    assert_eq!(unwrap_bytes(&back), vec![9, 8]);

    let d1 = Constant::Data(PlutusData::Integer(BigNum::from_i64(1)));
    let d2 = Constant::Data(PlutusData::ByteString(vec![7]));
    let list = con(Constant::ProtoList(Type::Data, vec![d1, d2]));
    let packed = run(&mut m, DefaultFunction::ListData, vec![list]).unwrap();
    let unpacked = run(&mut m, DefaultFunction::UnListData, vec![clone_value(&packed)])
        .unwrap();
    let again = run(&mut m, DefaultFunction::ListData, vec![unpacked]).unwrap();
    let eq = run(&mut m, DefaultFunction::EqualsData, vec![
        data_of(&packed),
        data_of(&again),
    ])
    .unwrap();
    assert!(unwrap_bool(&eq));
}

fn data_of(v: &Value) -> Value {
    clone_value(v)
}

#[test]
fn equals_data_is_reflexive_and_symmetric() {
    let mut m = machine();
    let d = con(Constant::Data(PlutusData::Constr {
        tag: 3,
        fields: vec![
            PlutusData::Integer(BigNum::from_i64(-5)),
            PlutusData::List(vec![PlutusData::ByteString(vec![1, 2])]),
        ],
    }));
    let e = con(Constant::Data(PlutusData::Integer(BigNum::from_i64(-5))));
    let refl = run(
        &mut m,
        DefaultFunction::EqualsData,
        vec![clone_value(&d), clone_value(&d)],
    )
    .unwrap();
    assert!(unwrap_bool(&refl));
    let de = run(
        &mut m,
        DefaultFunction::EqualsData,
        vec![clone_value(&d), clone_value(&e)],
    )
    .unwrap();
    let ed = run(&mut m, DefaultFunction::EqualsData, vec![e, d]).unwrap();
    assert_eq!(unwrap_bool(&de), unwrap_bool(&ed));
    assert!(!unwrap_bool(&de));
}

#[test]
fn choose_data_selects_the_matching_branch() {
    let mut m = machine();
    let d = con(Constant::Data(PlutusData::List(vec![])));
    let r = run(
        &mut m,
        DefaultFunction::ChooseData,
        vec![d, int_value(1), int_value(2), int_value(3), int_value(4), int_value(5)],
    )
    .unwrap();
    assert!(int_eq(&unwrap_int(&r), &BigNum::from_i64(3)));
}

#[test]
fn cons_byte_string_semantics_differ_between_variants() {
    let mut v1 = Machine::new(
        CostModel::default_model(),
        BuiltinSemantics::V1,
        ExBudget { cpu: 1_000_000, mem: 1_000_000 },
    );
    let r = run(
        &mut v1,
        DefaultFunction::ConsByteString,
        vec![int_value(257), bytes_value(&[9])],
    )
    .unwrap();
    assert_eq!(unwrap_bytes(&r), vec![1, 9]);
    let mut v2 = machine();
    let r = run(
        &mut v2,
        DefaultFunction::ConsByteString,
        vec![int_value(257), bytes_value(&[9])],
    );
    assert!(matches!(r, Err(MachineError::ByteStringConsNotAByte)));
}

#[test]
fn digest_vectors_and_lengths() {
    let mut m = machine();
    let empty = bytes_value(&[]);
    let r = run(&mut m, DefaultFunction::Sha2_256, vec![empty]).unwrap();
    assert_eq!(
        unwrap_bytes(&r),
        hex::decode("e3b0c44298fc1c149afbf4c8996fb92427ae41e4649b934ca495991b7852b855").unwrap()
    );
    let r = run(&mut m, DefaultFunction::Blake2b_256, vec![bytes_value(&[])]).unwrap();
    assert_eq!(
        unwrap_bytes(&r),
        hex::decode("0e5751c026e543b2e8ab2eb06099daa1d1e5df47778f7787faab45cdf12fe3a8").unwrap()
    );
    let r = run(&mut m, DefaultFunction::Ripemd_160, vec![bytes_value(&[])]).unwrap();
    assert_eq!(
        unwrap_bytes(&r),
        hex::decode("9c1185a5c5e9fc54612808977ee8f548b2258d31").unwrap()
    );
    let r = run(&mut m, DefaultFunction::Sha3_256, vec![bytes_value(b"abc")]).unwrap();
    assert_eq!(
        unwrap_bytes(&r),
        hex::decode("3a985da74fe225b2045c172d6bd390bd855f086e3e9d525b46bfe24511431532").unwrap()
    );
    let r = run(&mut m, DefaultFunction::Keccak_256, vec![bytes_value(b"abc")]).unwrap();
    assert_eq!(
        unwrap_bytes(&r),
        hex::decode("4e03657aea45a94fc7d47ba826c8d667c0d1e6e33a64a036ec44f58fa12d6c45").unwrap()
    );
    let r = run(&mut m, DefaultFunction::Blake2b_224, vec![bytes_value(b"abc")]).unwrap();
    assert_eq!(unwrap_bytes(&r).len(), 28);
}

#[test]
fn ed25519_verifies_and_rejects() {
    let seed = [7u8; 32];
    let (keypair, public) = cryptoxide::ed25519::keypair(&seed);
    let msg = b"the quick brown fox";
    let sig = cryptoxide::ed25519::signature(msg, &keypair);

    let mut m = machine();
    let good = run(
        &mut m,
        DefaultFunction::VerifyEd25519Signature,
        vec![bytes_value(&public), bytes_value(msg), bytes_value(&sig)],
    )
    .unwrap();
    assert!(unwrap_bool(&good));

    let mut bad_sig = sig;
    bad_sig[0] ^= 1;
    let bad = run(
        &mut m,
        DefaultFunction::VerifyEd25519Signature,
        vec![bytes_value(&public), bytes_value(msg), bytes_value(&bad_sig)],
    )
    .unwrap();
    assert!(!unwrap_bool(&bad));

    let short = run(
        &mut m,
        DefaultFunction::VerifyEd25519Signature,
        vec![bytes_value(&public[..31]), bytes_value(msg), bytes_value(&sig)],
    );
    assert!(matches!(
        short,
        Err(MachineError::UnexpectedEd25519PublicKeyLength(31))
    ));
    let short = run(
        &mut m,
        DefaultFunction::VerifyEd25519Signature,
        vec![bytes_value(&public), bytes_value(msg), bytes_value(&sig[..63])],
    );
    assert!(matches!(
        short,
        Err(MachineError::UnexpectedEd25519SignatureLength(63))
    ));
}

#[test]
fn ecdsa_secp256k1_verifies_and_rejects() {
    let sk = secp256k1::SecretKey::from_byte_array([0x11u8; 32]).unwrap();
    let pk = secp256k1::PublicKey::from_secret_key(&sk).serialize();
    let digest = [0x42u8; 32];
    let sig = secp256k1::ecdsa::sign(secp256k1::Message::from_digest(digest), &sk)
        .serialize_compact();

    let mut m = machine();
    let good = run(
        &mut m,
        DefaultFunction::VerifyEcdsaSecp256k1Signature,
        vec![bytes_value(&pk), bytes_value(&digest), bytes_value(&sig)],
    )
    .unwrap();
    assert!(unwrap_bool(&good));

    let mut other = digest;
    other[0] ^= 1;
    let bad = run(
        &mut m,
        DefaultFunction::VerifyEcdsaSecp256k1Signature,
        vec![bytes_value(&pk), bytes_value(&other), bytes_value(&sig)],
    )
    .unwrap();
    assert!(!unwrap_bool(&bad));

    let parse = run(
        &mut m,
        DefaultFunction::VerifyEcdsaSecp256k1Signature,
        vec![bytes_value(&pk), bytes_value(&digest[..31]), bytes_value(&sig)],
    );
    assert!(matches!(parse, Err(MachineError::Secp256k1Error)));
}

#[test]
fn schnorr_secp256k1_verifies_and_rejects() {
    let keypair = secp256k1::Keypair::from_seckey_byte_array([0x23u8; 32]).unwrap();
    let (xonly, _) = secp256k1::XOnlyPublicKey::from_keypair(&keypair);
    let pk = xonly.serialize();
    let msg = [0x55u8; 32];
    let sig = secp256k1::schnorr::sign_no_aux_rand(&msg, &keypair).to_byte_array();

    let mut m = machine();
    let good = run(
        &mut m,
        DefaultFunction::VerifySchnorrSecp256k1Signature,
        vec![bytes_value(&pk), bytes_value(&msg), bytes_value(&sig)],
    )
    .unwrap();
    assert!(unwrap_bool(&good));

    let mut other = msg;
    other[0] ^= 1;
    let bad = run(
        &mut m,
        DefaultFunction::VerifySchnorrSecp256k1Signature,
        vec![bytes_value(&pk), bytes_value(&other), bytes_value(&sig)],
    )
    .unwrap();
    assert!(!unwrap_bool(&bad));

    let parse = run(
        &mut m,
        DefaultFunction::VerifySchnorrSecp256k1Signature,
        vec![bytes_value(&pk[..31]), bytes_value(&msg), bytes_value(&sig)],
    );
    assert!(matches!(parse, Err(MachineError::Secp256k1Error)));
}
