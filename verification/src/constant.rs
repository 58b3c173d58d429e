//! Constants, structural data and their runtime types: the first-class
//! values of the language, together with their mathematical views and
//! well-formedness.

use vstd::prelude::*;
use crate::bigint::{int_ex_mem, BigNum};
use crate::bls::{g1_ok, g2_ok};
use crate::cost::{bytes_ex_mem, bytes_ex_mem_exec, sat_add, sat_add_i64};

verus! {

/// Structural descriptor of a constant's type.
#[derive(Debug)]
pub enum Type {
    Integer,
    ByteString,
    String,
    Unit,
    Bool,
    Data,
    G1Element,
    G2Element,
    MlResult,
    List(Box<Type>),
    Pair(Box<Type>, Box<Type>),
}

/// The structural datum format: a self-describing tagged tree.
#[derive(Debug)]
pub enum PlutusData {
    Constr { tag: u64, fields: Vec<PlutusData> },
    Mapping(Vec<(PlutusData, PlutusData)>),
    List(Vec<PlutusData>),
    Integer(BigNum),
    ByteString(Vec<u8>),
}

/// First-class constants; BLS12-381 points are carried as their compressed
/// encodings, and a Miller-loop accumulator as the factors it multiplies.
#[derive(Debug)]
pub enum Constant {
    Integer(BigNum),
    ByteString(Vec<u8>),
    String(String),
    Unit,
    Bool(bool),
    ProtoList(Type, Vec<Constant>),
    ProtoPair(Type, Type, Box<Constant>, Box<Constant>),
    Data(PlutusData),
    G1Element(Vec<u8>),
    G2Element(Vec<u8>),
    MlResult(Vec<(Vec<u8>, Vec<u8>)>),
}

/// Mathematical view of a datum.
pub enum DataV {
    Constr { tag: nat, fields: Seq<DataV> },
    Mapping(Seq<(DataV, DataV)>),
    List(Seq<DataV>),
    Integer(int),
    ByteString(Seq<u8>),
}

/// Mathematical view of a constant.
pub enum ConstV {
    Integer(int),
    ByteString(Seq<u8>),
    String(Seq<char>),
    Unit,
    Bool(bool),
    List(Type, Seq<ConstV>),
    Pair(Type, Type, Box<ConstV>, Box<ConstV>),
    Data(DataV),
    G1Element(Seq<u8>),
    G2Element(Seq<u8>),
    MlResult(Seq<(Seq<u8>, Seq<u8>)>),
}

pub open spec fn data_view(d: PlutusData) -> DataV
    decreases d,
{
    match d {
        PlutusData::Constr { tag, fields } => DataV::Constr {
            tag: tag as nat,
            fields: Seq::new(
                fields@.len(),
                |i: int|
                    if 0 <= i < fields@.len() {
                        data_view(fields@[i])
                    } else {
                        DataV::Integer(0)
                    },
            ),
        },
        PlutusData::Mapping(pairs) => DataV::Mapping(
            Seq::new(
                pairs@.len(),
                |i: int|
                    if 0 <= i < pairs@.len() {
                        (data_view(pairs@[i].0), data_view(pairs@[i].1))
                    } else {
                        (DataV::Integer(0), DataV::Integer(0))
                    },
            ),
        ),
        PlutusData::List(items) => DataV::List(
            Seq::new(
                items@.len(),
                |i: int|
                    if 0 <= i < items@.len() {
                        data_view(items@[i])
                    } else {
                        DataV::Integer(0)
                    },
            ),
        ),
        PlutusData::Integer(n) => DataV::Integer(n.val()),
        PlutusData::ByteString(b) => DataV::ByteString(b@),
    }
}

pub open spec fn const_view(c: Constant) -> ConstV
    decreases c,
{
    match c {
        Constant::Integer(n) => ConstV::Integer(n.val()),
        Constant::ByteString(b) => ConstV::ByteString(b@),
        Constant::String(s) => ConstV::String(s@),
        Constant::Unit => ConstV::Unit,
        Constant::Bool(b) => ConstV::Bool(b),
        Constant::ProtoList(t, items) => ConstV::List(
            t,
            Seq::new(
                items@.len(),
                |i: int|
                    if 0 <= i < items@.len() {
                        const_view(items@[i])
                    } else {
                        ConstV::Unit
                    },
            ),
        ),
        Constant::ProtoPair(t1, t2, a, b) => ConstV::Pair(
            t1,
            t2,
            Box::new(const_view(*a)),
            Box::new(const_view(*b)),
        ),
        Constant::Data(d) => ConstV::Data(data_view(d)),
        Constant::G1Element(b) => ConstV::G1Element(b@),
        Constant::G2Element(b) => ConstV::G2Element(b@),
        Constant::MlResult(fs) => ConstV::MlResult(
            Seq::new(fs@.len(), |i: int| (fs@[i].0@, fs@[i].1@)),
        ),
    }
}

/// The runtime type a view belongs to; lists and pairs carry theirs.
pub open spec fn vtype_of(v: ConstV) -> Type {
    match v {
        ConstV::Integer(_) => Type::Integer,
        ConstV::ByteString(_) => Type::ByteString,
        ConstV::String(_) => Type::String,
        ConstV::Unit => Type::Unit,
        ConstV::Bool(_) => Type::Bool,
        ConstV::List(t, _) => Type::List(Box::new(t)),
        ConstV::Pair(t1, t2, _, _) => Type::Pair(Box::new(t1), Box::new(t2)),
        ConstV::Data(_) => Type::Data,
        ConstV::G1Element(_) => Type::G1Element,
        ConstV::G2Element(_) => Type::G2Element,
        ConstV::MlResult(_) => Type::MlResult,
    }
}

/// Well-formedness of a constant view: list elements carry the declared
/// element type, pair components their component types, and curve points
/// are valid compressed encodings.
pub open spec fn wf_const(v: ConstV) -> bool
    decreases v,
{
    match v {
        ConstV::Integer(_) => true,
        ConstV::ByteString(_) => true,
        ConstV::String(_) => true,
        ConstV::Unit => true,
        ConstV::Bool(_) => true,
        ConstV::List(t, items) => forall|i: int|
            0 <= i < items.len() ==> wf_const(#[trigger] items[i]) && vtype_of(items[i]) == t,
        ConstV::Pair(t1, t2, a, b) => {
            &&& wf_const(*a)
            &&& wf_const(*b)
            &&& vtype_of(*a) == t1
            &&& vtype_of(*b) == t2
        },
        ConstV::Data(_) => true,
        ConstV::G1Element(b) => b.len() == 48 && g1_ok(b),
        ConstV::G2Element(b) => b.len() == 96 && g2_ok(b),
        ConstV::MlResult(fs) => fs.len() > 0 && forall|i: int|
            0 <= i < fs.len() ==> (#[trigger] fs[i]).0.len() == 48 && fs[i].1.len() == 96
                && g1_ok(fs[i].0) && g2_ok(fs[i].1),
    }
}

/// The exec magnitude behind an integer view is canonical.
pub open spec fn wf_const_exec(c: Constant) -> bool
    decreases c,
{
    match c {
        Constant::Integer(n) => n.wf(),
        Constant::ProtoList(_, items) => forall|i: int|
            0 <= i < items@.len() ==> wf_const_exec(#[trigger] items@[i]),
        Constant::ProtoPair(_, _, a, b) => wf_const_exec(*a) && wf_const_exec(*b),
        Constant::Data(d) => wf_data_exec(d),
        _ => true,
    }
}

pub open spec fn wf_data_exec(d: PlutusData) -> bool
    decreases d,
{
    match d {
        PlutusData::Constr { tag, fields } => forall|i: int|
            0 <= i < fields@.len() ==> wf_data_exec(#[trigger] fields@[i]),
        PlutusData::Mapping(pairs) => forall|i: int|
            0 <= i < pairs@.len() ==> wf_data_exec((#[trigger] pairs@[i]).0) && wf_data_exec(
                pairs@[i].1,
            ),
        PlutusData::List(items) => forall|i: int|
            0 <= i < items@.len() ==> wf_data_exec(#[trigger] items@[i]),
        PlutusData::Integer(n) => n.wf(),
        PlutusData::ByteString(_) => true,
    }
}

/// Only a `Data` constant carries the `Data` type.
pub proof fn lemma_vtype_data(v: ConstV)
    requires
        vtype_of(v) == Type::Data,
    ensures
        v is Data,
{
}

/// Only an integer constant carries the integer type.
pub proof fn lemma_vtype_integer(v: ConstV)
    requires
        vtype_of(v) == Type::Integer,
    ensures
        v is Integer,
{
}

/// Only a pair of `Data` constants carries the pair-of-`Data` type.
pub proof fn lemma_vtype_pair_data(v: ConstV)
    requires
        vtype_of(v) == Type::Pair(Box::new(Type::Data), Box::new(Type::Data)),
        wf_const(v),
    ensures
        v is Pair,
        *v->Pair_2 is Data,
        *v->Pair_3 is Data,
{
    assert(v is Pair);
    assert(vtype_of(*v->Pair_2) == Type::Data);
    assert(vtype_of(*v->Pair_3) == Type::Data);
    lemma_vtype_data(*v->Pair_2);
    lemma_vtype_data(*v->Pair_3);
}

/// Structural equality of runtime types, the comparison that gates list
/// and pair construction.
pub fn type_eq(a: &Type, b: &Type) -> (r: bool)
    ensures
        r == (*a == *b),
    decreases *a,
{
    match (a, b) {
        (Type::Integer, Type::Integer) => true,
        (Type::ByteString, Type::ByteString) => true,
        (Type::String, Type::String) => true,
        (Type::Unit, Type::Unit) => true,
        (Type::Bool, Type::Bool) => true,
        (Type::Data, Type::Data) => true,
        (Type::G1Element, Type::G1Element) => true,
        (Type::G2Element, Type::G2Element) => true,
        (Type::MlResult, Type::MlResult) => true,
        (Type::List(x), Type::List(y)) => type_eq(x, y),
        (Type::Pair(x1, x2), Type::Pair(y1, y2)) => type_eq(x1, y1) && type_eq(x2, y2),
        _ => false,
    }
}

pub fn clone_type(t: &Type) -> (r: Type)
    ensures
        r == *t,
    decreases *t,
{
    match t {
        Type::Integer => Type::Integer,
        Type::ByteString => Type::ByteString,
        Type::String => Type::String,
        Type::Unit => Type::Unit,
        Type::Bool => Type::Bool,
        Type::Data => Type::Data,
        Type::G1Element => Type::G1Element,
        Type::G2Element => Type::G2Element,
        Type::MlResult => Type::MlResult,
        Type::List(x) => Type::List(Box::new(clone_type(x))),
        Type::Pair(x1, x2) => Type::Pair(Box::new(clone_type(x1)), Box::new(clone_type(x2))),
    }
}

/// Relies on str::chars (via Iterator::count): one item per character, so
/// the count is the length of the character sequence.
#[verifier::external_body]
pub fn char_count(s: &String) -> (r: usize)
    ensures
        r as nat == s@.len(),
{
    s.chars().count()
}

pub fn clone_bytes(b: &Vec<u8>) -> (r: Vec<u8>)
    ensures
        r@ == b@,
{
    let r = vstd::slice::slice_to_vec(b.as_slice());
    proof {
        assert(r@ =~= b@);
    }
    r
}

/// Ex-memory of a datum: a fixed node charge plus its payload, summed with
/// saturation.
pub open spec fn data_ex_mem(d: DataV) -> int
    decreases d,
{
    match d {
        DataV::Constr { tag, fields } => sat_add(4, data_seq_ex_mem(fields)),
        DataV::Mapping(pairs) => sat_add(4, data_pairs_ex_mem(pairs)),
        DataV::List(items) => sat_add(4, data_seq_ex_mem(items)),
        DataV::Integer(v) => sat_add(4, int_ex_mem(v)),
        DataV::ByteString(b) => sat_add(4, bytes_ex_mem(b.len())),
    }
}

pub open spec fn data_seq_ex_mem(s: Seq<DataV>) -> int
    decreases s,
{
    if s.len() == 0 {
        0
    } else {
        sat_add(data_seq_ex_mem(s.drop_last()), data_ex_mem(s.last()))
    }
}

pub open spec fn data_pairs_ex_mem(s: Seq<(DataV, DataV)>) -> int
    decreases s,
{
    if s.len() == 0 {
        0
    } else {
        sat_add(
            data_pairs_ex_mem(s.drop_last()),
            sat_add(data_ex_mem(s.last().0), data_ex_mem(s.last().1)),
        )
    }
}

/// Ex-memory of a constant.
pub open spec fn const_ex_mem(v: ConstV) -> int
    decreases v,
{
    match v {
        ConstV::Integer(n) => int_ex_mem(n),
        ConstV::ByteString(b) => bytes_ex_mem(b.len()),
        ConstV::String(s) => if s.len() > i64::MAX {
            i64::MAX as int
        } else {
            s.len() as int
        },
        ConstV::Unit => 1,
        ConstV::Bool(_) => 1,
        ConstV::List(_, items) => const_seq_ex_mem(items),
        ConstV::Pair(_, _, a, b) => sat_add(const_ex_mem(*a), const_ex_mem(*b)),
        ConstV::Data(d) => data_ex_mem(d),
        ConstV::G1Element(_) => 18,
        ConstV::G2Element(_) => 36,
        ConstV::MlResult(_) => 72,
    }
}

pub open spec fn const_seq_ex_mem(s: Seq<ConstV>) -> int
    decreases s,
{
    if s.len() == 0 {
        0
    } else {
        sat_add(const_seq_ex_mem(s.drop_last()), const_ex_mem(s.last()))
    }
}


/// Children of a well-formed constructor datum are well-formed.
proof fn lemma_wf_data_constr(d: &PlutusData)
    requires
        wf_data_exec(*d),
        d is Constr,
    ensures
        forall|i: int|
            0 <= i < d->Constr_fields@.len() ==> #[trigger] wf_data_exec(d->Constr_fields@[i]),
{
    assert(forall|i: int|
        0 <= i < d->Constr_fields@.len() ==> #[trigger] wf_data_exec(d->Constr_fields@[i]));
}

proof fn lemma_wf_data_mapping(d: &PlutusData)
    requires
        wf_data_exec(*d),
        d is Mapping,
    ensures
        forall|i: int|
            0 <= i < d->Mapping_0@.len() ==> wf_data_exec((#[trigger] d->Mapping_0@[i]).0)
                && wf_data_exec(d->Mapping_0@[i].1),
{
    assert(forall|i: int|
        0 <= i < d->Mapping_0@.len() ==> wf_data_exec((#[trigger] d->Mapping_0@[i]).0)
            && wf_data_exec(d->Mapping_0@[i].1));
}

proof fn lemma_wf_data_list(d: &PlutusData)
    requires
        wf_data_exec(*d),
        d is List,
    ensures
        forall|i: int| 0 <= i < d->List_0@.len() ==> #[trigger] wf_data_exec(d->List_0@[i]),
{
    assert(forall|i: int| 0 <= i < d->List_0@.len() ==> #[trigger] wf_data_exec(d->List_0@[i]));
}

/// Unfolds well-formedness of a datum to its children.
pub proof fn lemma_wf_data_unfold(d: &PlutusData)
    requires
        wf_data_exec(*d),
    ensures
        d is Constr ==> forall|i: int|
            0 <= i < d->Constr_fields@.len() ==> #[trigger] wf_data_exec(d->Constr_fields@[i]),
        d is Mapping ==> forall|i: int|
            0 <= i < d->Mapping_0@.len() ==> wf_data_exec((#[trigger] d->Mapping_0@[i]).0)
                && wf_data_exec(d->Mapping_0@[i].1),
        d is List ==> forall|i: int|
            0 <= i < d->List_0@.len() ==> #[trigger] wf_data_exec(d->List_0@[i]),
        d is Integer ==> d->Integer_0.wf(),
{
    if d is Constr {
        lemma_wf_data_constr(d);
    }
    if d is Mapping {
        lemma_wf_data_mapping(d);
    }
    if d is List {
        lemma_wf_data_list(d);
    }
}

/// Unfolds the view of a datum to the views of its children.
pub proof fn lemma_data_view_unfold(d: &PlutusData)
    ensures
        d is Constr ==> data_view(*d) == (DataV::Constr {
            tag: d->Constr_tag as nat,
            fields: data_view(*d)->Constr_fields,
        }) && data_view(*d)->Constr_fields.len() == d->Constr_fields@.len() && forall|i: int|
            0 <= i < d->Constr_fields@.len() ==> data_view(*d)->Constr_fields[i] == data_view(
                #[trigger] d->Constr_fields@[i],
            ),
        d is Mapping ==> data_view(*d) == DataV::Mapping(data_view(*d)->Mapping_0)
            && data_view(*d)->Mapping_0.len() == d->Mapping_0@.len() && forall|i: int|
            0 <= i < d->Mapping_0@.len() ==> data_view(*d)->Mapping_0[i] == (
                data_view((#[trigger] d->Mapping_0@[i]).0),
                data_view(d->Mapping_0@[i].1),
            ),
        d is List ==> data_view(*d) == DataV::List(data_view(*d)->List_0) && data_view(
            *d,
        )->List_0.len() == d->List_0@.len() && forall|i: int|
            0 <= i < d->List_0@.len() ==> data_view(*d)->List_0[i] == data_view(
                #[trigger] d->List_0@[i],
            ),
        d is Integer ==> data_view(*d) == DataV::Integer(d->Integer_0.val()),
        d is ByteString ==> data_view(*d) == DataV::ByteString(d->ByteString_0@),
{
}

/// Elements of a well-formed list constant are well-formed.
proof fn lemma_wf_const_list(c: &Constant)
    requires
        wf_const_exec(*c),
        c is ProtoList,
    ensures
        forall|i: int|
            0 <= i < c->ProtoList_1@.len() ==> #[trigger] wf_const_exec(c->ProtoList_1@[i]),
{
    assert(forall|i: int|
        0 <= i < c->ProtoList_1@.len() ==> #[trigger] wf_const_exec(c->ProtoList_1@[i]));
}

/// Unfolds well-formedness of a constant to its parts.
pub proof fn lemma_wf_const_unfold(c: &Constant)
    requires
        wf_const_exec(*c),
    ensures
        c is Integer ==> c->Integer_0.wf(),
        c is ProtoList ==> forall|i: int|
            0 <= i < c->ProtoList_1@.len() ==> #[trigger] wf_const_exec(c->ProtoList_1@[i]),
        c is ProtoPair ==> wf_const_exec(*c->ProtoPair_2) && wf_const_exec(*c->ProtoPair_3),
        c is Data ==> wf_data_exec(c->Data_0),
{
    if c is ProtoList {
        lemma_wf_const_list(c);
    }
}

/// Unfolds the view of a constant to the views of its parts.
pub proof fn lemma_const_view_unfold(c: &Constant)
    ensures
        c is Integer ==> const_view(*c) == ConstV::Integer(c->Integer_0.val()),
        c is ByteString ==> const_view(*c) == ConstV::ByteString(c->ByteString_0@),
        c is String ==> const_view(*c) == ConstV::String(c->String_0@),
        c is Unit ==> const_view(*c) == ConstV::Unit,
        c is Bool ==> const_view(*c) == ConstV::Bool(c->Bool_0),
        c is ProtoList ==> const_view(*c) == ConstV::List(
            c->ProtoList_0,
            const_view(*c)->List_1,
        ) && const_view(*c)->List_1.len() == c->ProtoList_1@.len() && forall|i: int|
            0 <= i < c->ProtoList_1@.len() ==> const_view(*c)->List_1[i] == const_view(
                #[trigger] c->ProtoList_1@[i],
            ),
        c is ProtoPair ==> const_view(*c) == ConstV::Pair(
            c->ProtoPair_0,
            c->ProtoPair_1,
            Box::new(const_view(*c->ProtoPair_2)),
            Box::new(const_view(*c->ProtoPair_3)),
        ),
        c is Data ==> const_view(*c) == ConstV::Data(data_view(c->Data_0)),
        c is G1Element ==> const_view(*c) == ConstV::G1Element(c->G1Element_0@),
        c is G2Element ==> const_view(*c) == ConstV::G2Element(c->G2Element_0@),
        c is MlResult ==> const_view(*c) == ConstV::MlResult(const_view(*c)->MlResult_0)
            && const_view(*c)->MlResult_0.len() == c->MlResult_0@.len() && forall|i: int|
            0 <= i < c->MlResult_0@.len() ==> const_view(*c)->MlResult_0[i] == (
                (#[trigger] c->MlResult_0@[i]).0@,
                c->MlResult_0@[i].1@,
            ),
{
}

pub fn data_ex_mem_exec(d: &PlutusData) -> (r: i64)
    requires
        wf_data_exec(*d),
    ensures
        r == data_ex_mem(data_view(*d)),
        r >= 0,
    decreases *d,
{
    match d {
        PlutusData::Constr { tag, fields } => {
            let ghost vs = data_view(*d)->Constr_fields;
            proof {
                lemma_wf_data_unfold(d);
                lemma_data_view_unfold(d);
                assert(fields@ == d->Constr_fields@);
                assert(vs.subrange(0, 0) =~= Seq::<DataV>::empty());
            }
            let mut acc: i64 = 0;
            let mut i: usize = 0;
            while i < fields.len()
                invariant
                    i <= fields@.len(),
                    wf_data_exec(*d),
                    *d is Constr,
                    fields@ == d->Constr_fields@,
                    vs == data_view(*d)->Constr_fields,
                    vs.len() == fields@.len(),
                    acc >= 0,
                    acc == data_seq_ex_mem(vs.subrange(0, i as int)),
                decreases fields@.len() - i,
            {
                proof {
                    lemma_wf_data_unfold(d);
                    lemma_data_view_unfold(d);
                    assert(wf_data_exec(fields@[i as int]));
                    assert(vs[i as int] == data_view(fields@[i as int]));
                    assert(decreases_to!(*d => fields@[i as int]));
                    assert(vs.subrange(0, i as int + 1).drop_last() =~= vs.subrange(0, i as int));
                    assert(vs.subrange(0, i as int + 1).last() == vs[i as int]);
                }
                let e = data_ex_mem_exec(&fields[i]);
                acc = sat_add_i64(acc, e);
                i += 1;
            }
            proof {
                assert(vs.subrange(0, vs.len() as int) =~= vs);
            }
            sat_add_i64(4, acc)
        },
        PlutusData::Mapping(pairs) => {
            let ghost vs = data_view(*d)->Mapping_0;
            proof {
                lemma_wf_data_unfold(d);
                lemma_data_view_unfold(d);
                assert(pairs@ == d->Mapping_0@);
                assert(vs.subrange(0, 0) =~= Seq::<(DataV, DataV)>::empty());
            }
            let mut acc: i64 = 0;
            let mut i: usize = 0;
            while i < pairs.len()
                invariant
                    i <= pairs@.len(),
                    wf_data_exec(*d),
                    *d is Mapping,
                    pairs@ == d->Mapping_0@,
                    vs == data_view(*d)->Mapping_0,
                    vs.len() == pairs@.len(),
                    acc >= 0,
                    acc == data_pairs_ex_mem(vs.subrange(0, i as int)),
                decreases pairs@.len() - i,
            {
                proof {
                    lemma_wf_data_unfold(d);
                    lemma_data_view_unfold(d);
                    assert(wf_data_exec(pairs@[i as int].0));
                    assert(wf_data_exec(pairs@[i as int].1));
                    assert(vs[i as int] == (data_view(pairs@[i as int].0), data_view(
                        pairs@[i as int].1,
                    )));
                    assert(decreases_to!(*d => pairs@[i as int].0));
                    assert(decreases_to!(*d => pairs@[i as int].1));
                    assert(vs.subrange(0, i as int + 1).drop_last() =~= vs.subrange(0, i as int));
                    assert(vs.subrange(0, i as int + 1).last() == vs[i as int]);
                }
                let e1 = data_ex_mem_exec(&pairs[i].0);
                let e2 = data_ex_mem_exec(&pairs[i].1);
                acc = sat_add_i64(acc, sat_add_i64(e1, e2));
                i += 1;
            }
            proof {
                assert(vs.subrange(0, vs.len() as int) =~= vs);
            }
            sat_add_i64(4, acc)
        },
        PlutusData::List(items) => {
            let ghost vs = data_view(*d)->List_0;
            proof {
                lemma_wf_data_unfold(d);
                lemma_data_view_unfold(d);
                assert(items@ == d->List_0@);
                assert(vs.subrange(0, 0) =~= Seq::<DataV>::empty());
            }
            let mut acc: i64 = 0;
            let mut i: usize = 0;
            while i < items.len()
                invariant
                    i <= items@.len(),
                    wf_data_exec(*d),
                    *d is List,
                    items@ == d->List_0@,
                    vs == data_view(*d)->List_0,
                    vs.len() == items@.len(),
                    acc >= 0,
                    acc == data_seq_ex_mem(vs.subrange(0, i as int)),
                decreases items@.len() - i,
            {
                proof {
                    lemma_wf_data_unfold(d);
                    lemma_data_view_unfold(d);
                    assert(wf_data_exec(items@[i as int]));
                    assert(vs[i as int] == data_view(items@[i as int]));
                    assert(decreases_to!(*d => items@[i as int]));
                    assert(vs.subrange(0, i as int + 1).drop_last() =~= vs.subrange(0, i as int));
                    assert(vs.subrange(0, i as int + 1).last() == vs[i as int]);
                }
                let e = data_ex_mem_exec(&items[i]);
                acc = sat_add_i64(acc, e);
                i += 1;
            }
            proof {
                assert(vs.subrange(0, vs.len() as int) =~= vs);
            }
            sat_add_i64(4, acc)
        },
        PlutusData::Integer(n) => {
            proof {
                lemma_wf_data_unfold(d);
                lemma_data_view_unfold(d);
            }
            sat_add_i64(4, n.ex_mem())
        },
        PlutusData::ByteString(b) => {
            proof {
                lemma_data_view_unfold(d);
            }
            sat_add_i64(4, bytes_ex_mem_exec(b.len()))
        },
    }
}

pub fn const_ex_mem_exec(c: &Constant) -> (r: i64)
    requires
        wf_const_exec(*c),
    ensures
        r == const_ex_mem(const_view(*c)),
        r >= 0,
    decreases *c,
{
    proof {
        lemma_wf_const_unfold(c);
        lemma_const_view_unfold(c);
    }
    match c {
        Constant::Integer(n) => n.ex_mem(),
        Constant::ByteString(b) => bytes_ex_mem_exec(b.len()),
        Constant::String(s) => {
            let n: u64 = char_count(s) as u64;
            if n > 0x7fff_ffff_ffff_ffff_u64 {
                i64::MAX
            } else {
                n as i64
            }
        },
        Constant::Unit => 1,
        Constant::Bool(_) => 1,
        Constant::ProtoList(t, items) => {
            let ghost vs = const_view(*c)->List_1;
            proof {
                assert(items@ == c->ProtoList_1@);
                assert(vs.subrange(0, 0) =~= Seq::<ConstV>::empty());
            }
            let mut acc: i64 = 0;
            let mut i: usize = 0;
            while i < items.len()
                invariant
                    i <= items@.len(),
                    wf_const_exec(*c),
                    *c is ProtoList,
                    items@ == c->ProtoList_1@,
                    vs == const_view(*c)->List_1,
                    vs.len() == items@.len(),
                    acc >= 0,
                    acc == const_seq_ex_mem(vs.subrange(0, i as int)),
                decreases items@.len() - i,
            {
                proof {
                    lemma_wf_const_unfold(c);
                    lemma_const_view_unfold(c);
                    assert(wf_const_exec(items@[i as int]));
                    assert(vs[i as int] == const_view(items@[i as int]));
                    assert(decreases_to!(*c => items@[i as int]));
                    assert(vs.subrange(0, i as int + 1).drop_last() =~= vs.subrange(0, i as int));
                    assert(vs.subrange(0, i as int + 1).last() == vs[i as int]);
                }
                let e = const_ex_mem_exec(&items[i]);
                acc = sat_add_i64(acc, e);
                i += 1;
            }
            proof {
                assert(vs.subrange(0, vs.len() as int) =~= vs);
            }
            acc
        },
        Constant::ProtoPair(_, _, a, b) => {
            let e1 = const_ex_mem_exec(a);
            let e2 = const_ex_mem_exec(b);
            sat_add_i64(e1, e2)
        },
        Constant::Data(d) => data_ex_mem_exec(d),
        Constant::G1Element(_) => 18,
        Constant::G2Element(_) => 36,
        Constant::MlResult(_) => 72,
    }
}

pub fn clone_data(d: &PlutusData) -> (r: PlutusData)
    requires
        wf_data_exec(*d),
    ensures
        data_view(r) == data_view(*d),
        wf_data_exec(r),
    decreases *d,
{
    match d {
        PlutusData::Constr { tag, fields } => {
            let ghost vs = data_view(*d)->Constr_fields;
            proof {
                lemma_wf_data_unfold(d);
                lemma_data_view_unfold(d);
                assert(fields@ == d->Constr_fields@);
            }
            let mut out: Vec<PlutusData> = Vec::new();
            let mut i: usize = 0;
            while i < fields.len()
                invariant
                    i <= fields@.len(),
                    wf_data_exec(*d),
                    *d is Constr,
                    fields@ == d->Constr_fields@,
                    vs == data_view(*d)->Constr_fields,
                    vs.len() == fields@.len(),
                    out@.len() == i,
                    forall|k: int|
                        0 <= k < i ==> data_view(#[trigger] out@[k]) == vs[k] && wf_data_exec(
                            out@[k],
                        ),
                decreases fields@.len() - i,
            {
                proof {
                    lemma_wf_data_unfold(d);
                    lemma_data_view_unfold(d);
                    assert(wf_data_exec(fields@[i as int]));
                    assert(vs[i as int] == data_view(fields@[i as int]));
                    assert(decreases_to!(*d => fields@[i as int]));
                }
                let e = clone_data(&fields[i]);
                out.push(e);
                i += 1;
            }
            let r = PlutusData::Constr { tag: *tag, fields: out };
            proof {
                lemma_data_view_unfold(&r);
                lemma_wf_data_unfold(d);
                assert(data_view(r)->Constr_fields =~= vs);
                assert(data_view(r) == data_view(*d));
                assert forall|k: int| 0 <= k < r->Constr_fields@.len() implies wf_data_exec(
                    #[trigger] r->Constr_fields@[k],
                ) by {}
            }
            r
        },
        PlutusData::Mapping(pairs) => {
            let ghost vs = data_view(*d)->Mapping_0;
            proof {
                lemma_wf_data_unfold(d);
                lemma_data_view_unfold(d);
                assert(pairs@ == d->Mapping_0@);
            }
            let mut out: Vec<(PlutusData, PlutusData)> = Vec::new();
            let mut i: usize = 0;
            while i < pairs.len()
                invariant
                    i <= pairs@.len(),
                    wf_data_exec(*d),
                    *d is Mapping,
                    pairs@ == d->Mapping_0@,
                    vs == data_view(*d)->Mapping_0,
                    vs.len() == pairs@.len(),
                    out@.len() == i,
                    forall|k: int|
                        0 <= k < i ==> (data_view((#[trigger] out@[k]).0), data_view(out@[k].1))
                            == vs[k] && wf_data_exec(out@[k].0) && wf_data_exec(out@[k].1),
                decreases pairs@.len() - i,
            {
                proof {
                    lemma_wf_data_unfold(d);
                    lemma_data_view_unfold(d);
                    assert(wf_data_exec(pairs@[i as int].0));
                    assert(wf_data_exec(pairs@[i as int].1));
                    assert(vs[i as int] == (data_view(pairs@[i as int].0), data_view(
                        pairs@[i as int].1,
                    )));
                    assert(decreases_to!(*d => pairs@[i as int].0));
                    assert(decreases_to!(*d => pairs@[i as int].1));
                }
                let e1 = clone_data(&pairs[i].0);
                let e2 = clone_data(&pairs[i].1);
                out.push((e1, e2));
                i += 1;
            }
            let r = PlutusData::Mapping(out);
            proof {
                lemma_data_view_unfold(&r);
                assert(data_view(r)->Mapping_0 =~= vs);
                assert(data_view(r) == data_view(*d));
                assert forall|k: int| 0 <= k < r->Mapping_0@.len() implies wf_data_exec(
                    (#[trigger] r->Mapping_0@[k]).0,
                ) && wf_data_exec(r->Mapping_0@[k].1) by {}
            }
            r
        },
        PlutusData::List(items) => {
            let ghost vs = data_view(*d)->List_0;
            proof {
                lemma_wf_data_unfold(d);
                lemma_data_view_unfold(d);
                assert(items@ == d->List_0@);
            }
            let mut out: Vec<PlutusData> = Vec::new();
            let mut i: usize = 0;
            while i < items.len()
                invariant
                    i <= items@.len(),
                    wf_data_exec(*d),
                    *d is List,
                    items@ == d->List_0@,
                    vs == data_view(*d)->List_0,
                    vs.len() == items@.len(),
                    out@.len() == i,
                    forall|k: int|
                        0 <= k < i ==> data_view(#[trigger] out@[k]) == vs[k] && wf_data_exec(
                            out@[k],
                        ),
                decreases items@.len() - i,
            {
                proof {
                    lemma_wf_data_unfold(d);
                    lemma_data_view_unfold(d);
                    assert(wf_data_exec(items@[i as int]));
                    assert(vs[i as int] == data_view(items@[i as int]));
                    assert(decreases_to!(*d => items@[i as int]));
                }
                let e = clone_data(&items[i]);
                out.push(e);
                i += 1;
            }
            let r = PlutusData::List(out);
            proof {
                lemma_data_view_unfold(&r);
                assert(data_view(r)->List_0 =~= vs);
                assert(data_view(r) == data_view(*d));
                assert forall|k: int| 0 <= k < r->List_0@.len() implies wf_data_exec(
                    #[trigger] r->List_0@[k],
                ) by {}
            }
            r
        },
        PlutusData::Integer(n) => {
            let r = PlutusData::Integer(n.clone_num());
            proof {
                lemma_wf_data_unfold(d);
                lemma_data_view_unfold(d);
                lemma_data_view_unfold(&r);
            }
            r
        },
        PlutusData::ByteString(b) => {
            let r = PlutusData::ByteString(clone_bytes(b));
            proof {
                lemma_data_view_unfold(d);
                lemma_data_view_unfold(&r);
            }
            r
        },
    }
}

pub fn clone_constant(c: &Constant) -> (r: Constant)
    requires
        wf_const_exec(*c),
    ensures
        const_view(r) == const_view(*c),
        wf_const_exec(r),
    decreases *c,
{
    proof {
        lemma_wf_const_unfold(c);
        lemma_const_view_unfold(c);
    }
    match c {
        Constant::Integer(n) => {
            let r = Constant::Integer(n.clone_num());
            proof {
                lemma_const_view_unfold(&r);
            }
            r
        },
        Constant::ByteString(b) => {
            let r = Constant::ByteString(clone_bytes(b));
            proof {
                lemma_const_view_unfold(&r);
            }
            r
        },
        Constant::String(s) => {
            let r = Constant::String(s.clone());
            proof {
                lemma_const_view_unfold(&r);
            }
            r
        },
        Constant::Unit => Constant::Unit,
        Constant::Bool(b) => Constant::Bool(*b),
        Constant::ProtoList(t, items) => {
            let ghost vs = const_view(*c)->List_1;
            proof {
                assert(items@ == c->ProtoList_1@);
            }
            let mut out: Vec<Constant> = Vec::new();
            let mut i: usize = 0;
            while i < items.len()
                invariant
                    i <= items@.len(),
                    wf_const_exec(*c),
                    *c is ProtoList,
                    items@ == c->ProtoList_1@,
                    vs == const_view(*c)->List_1,
                    vs.len() == items@.len(),
                    out@.len() == i,
                    forall|k: int|
                        0 <= k < i ==> const_view(#[trigger] out@[k]) == vs[k] && wf_const_exec(
                            out@[k],
                        ),
                decreases items@.len() - i,
            {
                proof {
                    lemma_wf_const_unfold(c);
                    lemma_const_view_unfold(c);
                    assert(wf_const_exec(items@[i as int]));
                    assert(vs[i as int] == const_view(items@[i as int]));
                    assert(decreases_to!(*c => items@[i as int]));
                }
                let e = clone_constant(&items[i]);
                out.push(e);
                i += 1;
            }
            let r = Constant::ProtoList(clone_type(t), out);
            proof {
                lemma_const_view_unfold(&r);
                assert(const_view(r)->List_1 =~= vs);
                assert(const_view(r) == const_view(*c));
                assert forall|k: int| 0 <= k < r->ProtoList_1@.len() implies wf_const_exec(
                    #[trigger] r->ProtoList_1@[k],
                ) by {}
            }
            r
        },
        Constant::ProtoPair(t1, t2, a, b) => {
            let r = Constant::ProtoPair(
                clone_type(t1),
                clone_type(t2),
                Box::new(clone_constant(a)),
                Box::new(clone_constant(b)),
            );
            proof {
                lemma_const_view_unfold(&r);
            }
            r
        },
        Constant::Data(d) => {
            let r = Constant::Data(clone_data(d));
            proof {
                lemma_const_view_unfold(&r);
            }
            r
        },
        Constant::G1Element(b) => {
            let r = Constant::G1Element(clone_bytes(b));
            proof {
                lemma_const_view_unfold(&r);
            }
            r
        },
        Constant::G2Element(b) => {
            let r = Constant::G2Element(clone_bytes(b));
            proof {
                lemma_const_view_unfold(&r);
            }
            r
        },
        Constant::MlResult(fs) => {
            let ghost vs = const_view(*c)->MlResult_0;
            proof {
                assert(fs@ == c->MlResult_0@);
            }
            let mut out: Vec<(Vec<u8>, Vec<u8>)> = Vec::new();
            let mut i: usize = 0;
            while i < fs.len()
                invariant
                    i <= fs@.len(),
                    *c is MlResult,
                    fs@ == c->MlResult_0@,
                    vs == const_view(*c)->MlResult_0,
                    vs.len() == fs@.len(),
                    out@.len() == i,
                    forall|k: int|
                        0 <= k < i ==> ((#[trigger] out@[k]).0@, out@[k].1@) == vs[k],
                decreases fs@.len() - i,
            {
                proof {
                    lemma_const_view_unfold(c);
                    assert(vs[i as int] == (fs@[i as int].0@, fs@[i as int].1@));
                }
                let e1 = clone_bytes(&fs[i].0);
                let e2 = clone_bytes(&fs[i].1);
                out.push((e1, e2));
                i += 1;
            }
            let r = Constant::MlResult(out);
            proof {
                lemma_const_view_unfold(&r);
                assert(const_view(r)->MlResult_0 =~= vs);
                assert(const_view(r) == const_view(*c));
            }
            r
        },
    }
}

/// Structural equality of two data, the relation `EqualsData` decides.
pub fn equals_data(a: &PlutusData, b: &PlutusData) -> (r: bool)
    requires
        wf_data_exec(*a),
        wf_data_exec(*b),
    ensures
        r == (data_view(*a) == data_view(*b)),
    decreases *a,
{
    proof {
        lemma_data_view_unfold(a);
        lemma_data_view_unfold(b);
    }
    match (a, b) {
        (
            PlutusData::Constr { tag: t1, fields: f1 },
            PlutusData::Constr { tag: t2, fields: f2 },
        ) => {
            let ghost v1 = data_view(*a)->Constr_fields;
            let ghost v2 = data_view(*b)->Constr_fields;
            proof {
                if data_view(*a) == data_view(*b) {
                    assert(*t1 == *t2 && v1 == v2);
                }
            }
            if *t1 != *t2 || f1.len() != f2.len() {
                return false;
            }
            let mut i: usize = 0;
            while i < f1.len()
                invariant
                    i <= f1@.len(),
                    wf_data_exec(*a),
                    wf_data_exec(*b),
                    *a is Constr,
                    *b is Constr,
                    f1@ == a->Constr_fields@,
                    f2@ == b->Constr_fields@,
                    f1@.len() == f2@.len(),
                    v1 == data_view(*a)->Constr_fields,
                    v2 == data_view(*b)->Constr_fields,
                    v1.len() == f1@.len() && v2.len() == f2@.len(),
                    data_view(*a)->Constr_tag == data_view(*b)->Constr_tag,
                    data_view(*a) is Constr && data_view(*b) is Constr,
                    data_view(*a) == (DataV::Constr {
                        tag: data_view(*a)->Constr_tag,
                        fields: v1,
                    }),
                    data_view(*b) == (DataV::Constr {
                        tag: data_view(*b)->Constr_tag,
                        fields: v2,
                    }),
                    forall|k: int| 0 <= k < i ==> v1[k] == v2[k],
                decreases f1@.len() - i,
            {
                proof {
                    lemma_wf_data_unfold(a);
                    lemma_wf_data_unfold(b);
                    lemma_data_view_unfold(a);
                    lemma_data_view_unfold(b);
                    assert(wf_data_exec(f1@[i as int]));
                    assert(wf_data_exec(f2@[i as int]));
                    assert(v1[i as int] == data_view(f1@[i as int]));
                    assert(v2[i as int] == data_view(f2@[i as int]));
                    assert(decreases_to!(*a => f1@[i as int]));
                }
                if !equals_data(&f1[i], &f2[i]) {
                    proof {
                        assert(v1[i as int] != v2[i as int]);
                        assert(v1 != v2);
                    }
                    return false;
                }
                i += 1;
            }
            proof {
                assert(v1 =~= v2);
            }
            true
        },
        (PlutusData::Mapping(p1), PlutusData::Mapping(p2)) => {
            let ghost v1 = data_view(*a)->Mapping_0;
            let ghost v2 = data_view(*b)->Mapping_0;
            proof {
                if data_view(*a) == data_view(*b) {
                    assert(v1 == v2);
                }
            }
            if p1.len() != p2.len() {
                return false;
            }
            let mut i: usize = 0;
            while i < p1.len()
                invariant
                    i <= p1@.len(),
                    wf_data_exec(*a),
                    wf_data_exec(*b),
                    *a is Mapping,
                    *b is Mapping,
                    p1@ == a->Mapping_0@,
                    p2@ == b->Mapping_0@,
                    p1@.len() == p2@.len(),
                    v1 == data_view(*a)->Mapping_0,
                    v2 == data_view(*b)->Mapping_0,
                    v1.len() == p1@.len() && v2.len() == p2@.len(),
                    data_view(*a) == DataV::Mapping(v1),
                    data_view(*b) == DataV::Mapping(v2),
                    forall|k: int| 0 <= k < i ==> v1[k] == v2[k],
                decreases p1@.len() - i,
            {
                proof {
                    lemma_wf_data_unfold(a);
                    lemma_wf_data_unfold(b);
                    lemma_data_view_unfold(a);
                    lemma_data_view_unfold(b);
                    assert(wf_data_exec(p1@[i as int].0) && wf_data_exec(p1@[i as int].1));
                    assert(wf_data_exec(p2@[i as int].0) && wf_data_exec(p2@[i as int].1));
                    assert(v1[i as int] == (data_view(p1@[i as int].0), data_view(
                        p1@[i as int].1,
                    )));
                    assert(v2[i as int] == (data_view(p2@[i as int].0), data_view(
                        p2@[i as int].1,
                    )));
                    assert(decreases_to!(*a => p1@[i as int].0));
                    assert(decreases_to!(*a => p1@[i as int].1));
                }
                let r1 = equals_data(&p1[i].0, &p2[i].0);
                if !r1 {
                    proof {
                        assert(v1[i as int].0 != v2[i as int].0);
                        assert(v1[i as int] != v2[i as int]);
                        assert(v1 != v2);
                    }
                    return false;
                }
                let r2 = equals_data(&p1[i].1, &p2[i].1);
                if !r2 {
                    proof {
                        assert(v1[i as int].1 != v2[i as int].1);
                        assert(v1[i as int] != v2[i as int]);
                        assert(v1 != v2);
                    }
                    return false;
                }
                proof {
                    assert(v1[i as int] == v2[i as int]);
                }
                i += 1;
            }
            proof {
                assert(v1 =~= v2);
            }
            true
        },
        (PlutusData::List(i1), PlutusData::List(i2)) => {
            let ghost v1 = data_view(*a)->List_0;
            let ghost v2 = data_view(*b)->List_0;
            proof {
                if data_view(*a) == data_view(*b) {
                    assert(v1 == v2);
                }
            }
            if i1.len() != i2.len() {
                return false;
            }
            let mut i: usize = 0;
            while i < i1.len()
                invariant
                    i <= i1@.len(),
                    wf_data_exec(*a),
                    wf_data_exec(*b),
                    *a is List,
                    *b is List,
                    i1@ == a->List_0@,
                    i2@ == b->List_0@,
                    i1@.len() == i2@.len(),
                    v1 == data_view(*a)->List_0,
                    v2 == data_view(*b)->List_0,
                    v1.len() == i1@.len() && v2.len() == i2@.len(),
                    data_view(*a) == DataV::List(v1),
                    data_view(*b) == DataV::List(v2),
                    forall|k: int| 0 <= k < i ==> v1[k] == v2[k],
                decreases i1@.len() - i,
            {
                proof {
                    lemma_wf_data_unfold(a);
                    lemma_wf_data_unfold(b);
                    lemma_data_view_unfold(a);
                    lemma_data_view_unfold(b);
                    assert(wf_data_exec(i1@[i as int]));
                    assert(wf_data_exec(i2@[i as int]));
                    assert(v1[i as int] == data_view(i1@[i as int]));
                    assert(v2[i as int] == data_view(i2@[i as int]));
                    assert(decreases_to!(*a => i1@[i as int]));
                }
                if !equals_data(&i1[i], &i2[i]) {
                    proof {
                        assert(v1[i as int] != v2[i as int]);
                        assert(v1 != v2);
                    }
                    return false;
                }
                i += 1;
            }
            proof {
                assert(v1 =~= v2);
            }
            true
        },
        (PlutusData::Integer(n1), PlutusData::Integer(n2)) => {
            proof {
                lemma_wf_data_unfold(a);
                lemma_wf_data_unfold(b);
            }
            n1.eq_val(n2)
        },
        (PlutusData::ByteString(b1), PlutusData::ByteString(b2)) => crate::bigint::bytes_eq(
            b1,
            b2,
        ),
        _ => false,
    }
}

} // verus!
