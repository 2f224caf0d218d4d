//! Plutus data: trees that the chain's scripts read, and their CBOR bytes.

use pallas_primitives::PlutusData as PallasData;
use pallas_primitives::MaybeIndefArray::{Def, Indef};
use pallas_primitives::{BigInt, Constr, Int, KeyValuePairs};
use vstd::prelude::*;

verus! {

/// A piece of Plutus data.
#[derive(Debug)]
pub enum PlutusData {
    Constr { tag: u64, any_constructor: Option<u64>, indefinite: bool, fields: Vec<PlutusData> },
    Pairs(Vec<(PlutusData, PlutusData)>),
    Int(i128),
    BigUInt(Vec<u8>),
    BigNInt(Vec<u8>),
    BoundedBytes(Vec<u8>),
    Array { indefinite: bool, items: Vec<PlutusData> },
}

/// A piece of Plutus data, as a mathematical tree.
pub enum Plutus {
    Constr { tag: u64, any_constructor: Option<u64>, indefinite: bool, fields: Seq<Plutus> },
    Pairs(Seq<(Plutus, Plutus)>),
    Int(int),
    BigUInt(Seq<u8>),
    BigNInt(Seq<u8>),
    BoundedBytes(Seq<u8>),
    Array { indefinite: bool, items: Seq<Plutus> },
}

impl View for PlutusData {
    type V = Plutus;

    open spec fn view(&self) -> Plutus {
        tree_of(*self)
    }
}

/// The tree that a value stands for.
pub open spec fn tree_of(data: PlutusData) -> Plutus
    decreases data,
{
    match data {
        PlutusData::Constr { tag, any_constructor, indefinite, fields } => Plutus::Constr {
            tag,
            any_constructor,
            indefinite,
            fields: Seq::new(
                fields@.len(),
                |i: int|
                    if 0 <= i < fields@.len() {
                        tree_of(fields@[i])
                    } else {
                        arbitrary()
                    },
            ),
        },
        PlutusData::Pairs(pairs) => Plutus::Pairs(
            Seq::new(
                pairs@.len(),
                |i: int|
                    if 0 <= i < pairs@.len() {
                        (tree_of(pairs@[i].0), tree_of(pairs@[i].1))
                    } else {
                        arbitrary()
                    },
            ),
        ),
        PlutusData::Int(value) => Plutus::Int(value as int),
        PlutusData::BigUInt(bytes) => Plutus::BigUInt(bytes@),
        PlutusData::BigNInt(bytes) => Plutus::BigNInt(bytes@),
        PlutusData::BoundedBytes(bytes) => Plutus::BoundedBytes(bytes@),
        PlutusData::Array { indefinite, items } => Plutus::Array {
            indefinite,
            items: Seq::new(
                items@.len(),
                |i: int|
                    if 0 <= i < items@.len() {
                        tree_of(items@[i])
                    } else {
                        arbitrary()
                    },
            ),
        },
    }
}

/// `pallas_primitives::PlutusData`.
#[verifier::external_type_specification]
#[verifier::external_body]
pub struct ExPallasData(PallasData);

/// `minicbor::decode::Error`.
#[verifier::external_type_specification]
#[verifier::external_body]
pub struct ExCborError(minicbor::decode::Error);

/// The tree that a `pallas_primitives::PlutusData` holds. Whether a map in it was read without its
/// length is left out: it is written with its length in any case.
pub uninterp spec fn outside_tree(data: PallasData) -> Plutus;

/// One node of a tree, with the branches still inside `pallas_primitives`.
pub enum Node {
    Constr { tag: u64, any_constructor: Option<u64>, indefinite: bool, fields: Vec<PallasData> },
    Pairs(Vec<(PallasData, PallasData)>),
    Int(i128),
    BigUInt(Vec<u8>),
    BigNInt(Vec<u8>),
    BoundedBytes(Vec<u8>),
    Array { indefinite: bool, items: Vec<PallasData> },
}

/// The tree that a node and its branches make.
pub open spec fn node_tree(node: Node) -> Plutus {
    match node {
        Node::Constr { tag, any_constructor, indefinite, fields } => Plutus::Constr {
            tag,
            any_constructor,
            indefinite,
            fields: Seq::new(fields@.len(), |i: int| outside_tree(fields@[i])),
        },
        Node::Pairs(pairs) => Plutus::Pairs(
            Seq::new(pairs@.len(), |i: int| (outside_tree(pairs@[i].0), outside_tree(pairs@[i].1))),
        ),
        Node::Int(value) => Plutus::Int(value as int),
        Node::BigUInt(bytes) => Plutus::BigUInt(bytes@),
        Node::BigNInt(bytes) => Plutus::BigNInt(bytes@),
        Node::BoundedBytes(bytes) => Plutus::BoundedBytes(bytes@),
        Node::Array { indefinite, items } => Plutus::Array {
            indefinite,
            items: Seq::new(items@.len(), |i: int| outside_tree(items@[i])),
        },
    }
}

/// Takes a `pallas_primitives::PlutusData` apart, one level deep.
#[verifier::external_body]
fn open_node(data: PallasData) -> (r: Node)
    ensures
        node_tree(r) == outside_tree(data),
{
    match data {
        PallasData::Constr(c) => Node::Constr {
            tag: c.tag,
            any_constructor: c.any_constructor,
            indefinite: matches!(c.fields, Indef(_)),
            fields: c.fields.to_vec(),
        },
        PallasData::Map(m) => Node::Pairs(m.to_vec()),
        PallasData::BigInt(BigInt::Int(i)) => Node::Int(i.into()),
        PallasData::BigInt(BigInt::BigUInt(b)) => Node::BigUInt(b.into()),
        PallasData::BigInt(BigInt::BigNInt(b)) => Node::BigNInt(b.into()),
        PallasData::BoundedBytes(b) => Node::BoundedBytes(b.into()),
        PallasData::Array(items) => Node::Array { indefinite: matches!(items, Indef(_)), items: items.to_vec() },
    }
}

/// Puts a `pallas_primitives::PlutusData` together. Its `Int` takes what CBOR's integers can hold.
#[verifier::external_body]
fn close_node(node: Node) -> (r: PallasData)
    requires
        node matches Node::Int(value) ==> is_cbor_int(value as int),
    ensures
        outside_tree(r) == node_tree(node),
{
    match node {
        Node::Constr { tag, any_constructor, indefinite, fields } => PallasData::Constr(Constr {
            tag,
            any_constructor,
            fields: if indefinite { Indef(fields) } else { Def(fields) },
        }),
        Node::Pairs(pairs) => PallasData::Map(KeyValuePairs::Def(pairs)),
        Node::Int(i) => PallasData::BigInt(BigInt::Int(Int::try_from(i).unwrap())),
        Node::BigUInt(b) => PallasData::BigInt(BigInt::BigUInt(b.into())),
        Node::BigNInt(b) => PallasData::BigInt(BigInt::BigNInt(b.into())),
        Node::BoundedBytes(b) => PallasData::BoundedBytes(b.into()),
        Node::Array { indefinite, items } => PallasData::Array(if indefinite { Indef(items) } else { Def(items) }),
    }
}

/// The integers that CBOR writes as such.
pub open spec fn is_cbor_int(value: int) -> bool {
    -0x1_0000_0000_0000_0000 <= value < 0x1_0000_0000_0000_0000
}

/// A constructor's tag is one that Plutus data can have; the general one names its constructor.
pub open spec fn is_constr_tag(tag: u64, any_constructor: Option<u64>) -> bool {
    if tag == 102 {
        any_constructor is Some
    } else {
        any_constructor is None && (121 <= tag <= 127 || 1280 <= tag <= 1400)
    }
}

/// The integers of a tree are ones that CBOR writes as such.
pub open spec fn is_writable(data: Plutus) -> bool
    decreases data,
{
    match data {
        Plutus::Constr { fields, .. } => forall|i: int| 0 <= i < fields.len() ==> is_writable(#[trigger] fields[i]),
        Plutus::Pairs(pairs) => forall|i: int|
            0 <= i < pairs.len() ==> is_writable((#[trigger] pairs[i]).0) && is_writable(pairs[i].1),
        Plutus::Int(value) => is_cbor_int(value),
        Plutus::Array { items, .. } => forall|i: int| 0 <= i < items.len() ==> is_writable(#[trigger] items[i]),
        _ => true,
    }
}

/// What a tree's bytes give back: its integers can be written and its constructors' tags read.
pub open spec fn is_readable(data: Plutus) -> bool
    decreases data,
{
    match data {
        Plutus::Constr { tag, any_constructor, fields, .. } => is_constr_tag(tag, any_constructor) && forall|i: int|
            0 <= i < fields.len() ==> is_readable(#[trigger] fields[i]),
        Plutus::Pairs(pairs) => forall|i: int|
            0 <= i < pairs.len() ==> is_readable((#[trigger] pairs[i]).0) && is_readable(pairs[i].1),
        Plutus::Int(value) => is_cbor_int(value),
        Plutus::Array { items, .. } => forall|i: int| 0 <= i < items.len() ==> is_readable(#[trigger] items[i]),
        _ => true,
    }
}

/// The CBOR bytes of a tree, as `pallas_primitives` writes them.
pub uninterp spec fn cbor_bytes(data: Plutus) -> Seq<u8>;

/// The tree that stands at the start of CBOR bytes, if one does, as `pallas_primitives` reads it.
pub uninterp spec fn cbor_tree(bytes: Seq<u8>) -> Option<Plutus>;

/// `minicbor::to_vec` of a `pallas_primitives::PlutusData`. Reading the bytes gives the tree back.
#[verifier::external_body]
fn write_cbor(data: &PallasData) -> (r: Vec<u8>)
    ensures
        r@ == cbor_bytes(outside_tree(*data)),
        is_readable(outside_tree(*data)) ==> cbor_tree(r@) == Some(outside_tree(*data)),
{
    minicbor::to_vec(data).unwrap()
}

/// `minicbor::decode` of a `pallas_primitives::PlutusData`. What follows it in the bytes is not read.
#[verifier::external_body]
fn read_cbor(bytes: &[u8]) -> (r: Result<PallasData, minicbor::decode::Error>)
    ensures
        r is Ok <==> cbor_tree(bytes@) is Some,
        r is Ok ==> cbor_tree(bytes@) == Some(outside_tree(r->Ok_0)),
{
    minicbor::decode(bytes)
}

/// Brings a value to `pallas_primitives`.
fn to_outside(data: &PlutusData) -> (r: PallasData)
    requires
        is_writable(data@),
    ensures
        outside_tree(r) == data@,
    decreases data,
{
    match data {
        PlutusData::Constr { tag, any_constructor, indefinite, fields } => {
            let mut branches: Vec<PallasData> = Vec::new();
            let mut i: usize = 0;
            while i < fields.len()
                invariant
                    i <= fields.len(),
                    data matches PlutusData::Constr { fields: f, .. } && f == *fields,
                    is_writable(data@),
                    branches.len() == i,
                    forall|j: int| 0 <= j < i ==> outside_tree(#[trigger] branches@[j]) == tree_of(fields@[j]),
                decreases fields.len() - i,
            {
                assert(data@->Constr_fields[i as int] == tree_of(fields@[i as int]));
                branches.push(to_outside(&fields[i]));
                i += 1;
            }
            let node = Node::Constr {
                tag: *tag,
                any_constructor: *any_constructor,
                indefinite: *indefinite,
                fields: branches,
            };
            assert(node_tree(node)->Constr_fields =~= data@->Constr_fields);
            close_node(node)
        },
        PlutusData::Pairs(pairs) => {
            let mut branches: Vec<(PallasData, PallasData)> = Vec::new();
            let mut i: usize = 0;
            while i < pairs.len()
                invariant
                    i <= pairs.len(),
                    data matches PlutusData::Pairs(p) && p == *pairs,
                    is_writable(data@),
                    branches.len() == i,
                    forall|j: int|
                        0 <= j < i ==> outside_tree((#[trigger] branches@[j]).0) == tree_of(pairs@[j].0) && outside_tree(
                            branches@[j].1,
                        ) == tree_of(pairs@[j].1),
                decreases pairs.len() - i,
            {
                assert(data@->Pairs_0[i as int] == (tree_of(pairs@[i as int].0), tree_of(pairs@[i as int].1)));
                branches.push((to_outside(&pairs[i].0), to_outside(&pairs[i].1)));
                i += 1;
            }
            let node = Node::Pairs(branches);
            assert(node_tree(node)->Pairs_0 =~= data@->Pairs_0);
            close_node(node)
        },
        PlutusData::Int(value) => close_node(Node::Int(*value)),
        PlutusData::BigUInt(bytes) => close_node(Node::BigUInt(bytes.clone())),
        PlutusData::BigNInt(bytes) => close_node(Node::BigNInt(bytes.clone())),
        PlutusData::BoundedBytes(bytes) => close_node(Node::BoundedBytes(bytes.clone())),
        PlutusData::Array { indefinite, items } => {
            let mut branches: Vec<PallasData> = Vec::new();
            let mut i: usize = 0;
            while i < items.len()
                invariant
                    i <= items.len(),
                    data matches PlutusData::Array { items: f, .. } && f == *items,
                    is_writable(data@),
                    branches.len() == i,
                    forall|j: int| 0 <= j < i ==> outside_tree(#[trigger] branches@[j]) == tree_of(items@[j]),
                decreases items.len() - i,
            {
                assert(data@->Array_items[i as int] == tree_of(items@[i as int]));
                branches.push(to_outside(&items[i]));
                i += 1;
            }
            let node = Node::Array { indefinite: *indefinite, items: branches };
            assert(node_tree(node)->Array_items =~= data@->Array_items);
            close_node(node)
        },
    }
}

/// Brings a value from `pallas_primitives`.
fn from_outside(data: PallasData) -> (r: PlutusData)
    ensures
        r@ == outside_tree(data),
    decreases outside_tree(data), 1nat,
{
    let ghost tree = outside_tree(data);
    match open_node(data) {
        Node::Constr { tag, any_constructor, indefinite, fields: branches } => {
            assert forall|i: int| 0 <= i < branches@.len() implies decreases_to!(
                tree => outside_tree(#[trigger] branches@[i])) by {
                assert(tree->Constr_fields[i] == outside_tree(branches@[i]));
                assert(decreases_to!(tree => tree->Constr_fields[i]));
            }
            let fields = list_from_outside(branches, Ghost(tree));
            let r = PlutusData::Constr { tag, any_constructor, indefinite, fields };
            assert(r@->Constr_fields =~= tree->Constr_fields);
            r
        },
        Node::Pairs(branches) => {
            let mut rest = branches;
            let ghost all = rest@;
            let mut pairs: Vec<(PlutusData, PlutusData)> = Vec::new();
            while rest.len() > 0
                invariant
                    tree == outside_tree(data),
                    tree == Plutus::Pairs(
                        Seq::new(all.len(), |i: int| (outside_tree(all[i].0), outside_tree(all[i].1))),
                    ),
                    rest@.len() + pairs@.len() == all.len(),
                    forall|j: int| 0 <= j < rest@.len() ==> rest@[j] == #[trigger] all[j + pairs@.len()],
                    forall|j: int|
                        0 <= j < pairs@.len() ==> tree_of((#[trigger] pairs@[j]).0) == outside_tree(all[j].0) && tree_of(
                            pairs@[j].1,
                        ) == outside_tree(all[j].1),
                decreases rest.len(),
            {
                let ghost k = pairs@.len() as int;
                assert(rest@[0] == all[0 + k]);
                let (key, value) = rest.remove(0);
                assert(tree->Pairs_0[k] == (outside_tree(all[k].0), outside_tree(all[k].1)));
                assert(decreases_to!(tree => tree->Pairs_0[k].0));
                assert(decreases_to!(tree => tree->Pairs_0[k].1));
                let pair = (from_outside(key), from_outside(value));
                pairs.push(pair);
                assert forall|j: int| 0 <= j < rest@.len() implies rest@[j] == #[trigger] all[j + pairs@.len()] by {
                    assert(rest@[j] == all[(j + 1) + k]);
                }
            }
            let r = PlutusData::Pairs(pairs);
            assert(r@->Pairs_0 =~= tree->Pairs_0);
            r
        },
        Node::Int(value) => PlutusData::Int(value),
        Node::BigUInt(bytes) => PlutusData::BigUInt(bytes),
        Node::BigNInt(bytes) => PlutusData::BigNInt(bytes),
        Node::BoundedBytes(bytes) => PlutusData::BoundedBytes(bytes),
        Node::Array { indefinite, items: branches } => {
            assert forall|i: int| 0 <= i < branches@.len() implies decreases_to!(
                tree => outside_tree(#[trigger] branches@[i])) by {
                assert(tree->Array_items[i] == outside_tree(branches@[i]));
                assert(decreases_to!(tree => tree->Array_items[i]));
            }
            let items = list_from_outside(branches, Ghost(tree));
            let r = PlutusData::Array { indefinite, items };
            assert(r@->Array_items =~= tree->Array_items);
            r
        },
    }
}

/// Brings the branches of `parent` from `pallas_primitives`.
fn list_from_outside(branches: Vec<PallasData>, parent: Ghost<Plutus>) -> (r: Vec<PlutusData>)
    requires
        forall|i: int| 0 <= i < branches@.len() ==> decreases_to!(parent@ => outside_tree(#[trigger] branches@[i])),
    ensures
        r@.len() == branches@.len(),
        forall|i: int| 0 <= i < r@.len() ==> tree_of(#[trigger] r@[i]) == outside_tree(branches@[i]),
    decreases parent@, 0nat,
{
    let ghost all = branches@;
    let mut rest = branches;
    let mut items: Vec<PlutusData> = Vec::new();
    while rest.len() > 0
        invariant
            forall|i: int| 0 <= i < all.len() ==> decreases_to!(parent@ => outside_tree(#[trigger] all[i])),
            rest@.len() + items@.len() == all.len(),
            forall|j: int| 0 <= j < rest@.len() ==> rest@[j] == #[trigger] all[j + items@.len()],
            forall|j: int| 0 <= j < items@.len() ==> tree_of(#[trigger] items@[j]) == outside_tree(all[j]),
        decreases rest.len(),
    {
        let ghost k = items@.len() as int;
        assert(rest@[0] == all[0 + k]);
        let branch = rest.remove(0);
        items.push(from_outside(branch));
        assert forall|j: int| 0 <= j < rest@.len() implies rest@[j] == #[trigger] all[j + items@.len()] by {
            assert(rest@[j] == all[(j + 1) + k]);
        }
    }
    items
}

/// The CBOR bytes of a value.
pub fn encode(data: &PlutusData) -> (r: Vec<u8>)
    requires
        is_writable(data@),
    ensures
        r@ == cbor_bytes(data@),
        is_readable(data@) ==> cbor_tree(r@) == Some(data@),
{
    write_cbor(&to_outside(data))
}

/// The value that stands at the start of CBOR bytes.
pub fn decode(bytes: &[u8]) -> (r: Option<PlutusData>)
    ensures
        r is Some <==> cbor_tree(bytes@) is Some,
        r is Some ==> cbor_tree(bytes@) == Some(r->0@),
{
    match read_cbor(bytes) {
        Ok(data) => Some(from_outside(data)),
        Err(_) => None,
    }
}

/// What can be read back can be written.
pub proof fn lemma_readable_is_writable(data: Plutus)
    requires
        is_readable(data),
    ensures
        is_writable(data),
    decreases data,
{
    match data {
        Plutus::Constr { fields, .. } => {
            assert forall|i: int| 0 <= i < fields.len() implies is_writable(#[trigger] fields[i]) by {
                lemma_readable_is_writable(fields[i]);
            }
        },
        Plutus::Pairs(pairs) => {
            assert forall|i: int| 0 <= i < pairs.len() implies is_writable((#[trigger] pairs[i]).0) && is_writable(
                pairs[i].1,
            ) by {
                assert(decreases_to!(data => pairs[i].0));
                lemma_readable_is_writable(pairs[i].0);
                lemma_readable_is_writable(pairs[i].1);
            }
        },
        Plutus::Array { items, .. } => {
            assert forall|i: int| 0 <= i < items.len() implies is_writable(#[trigger] items[i]) by {
                lemma_readable_is_writable(items[i]);
            }
        },
        _ => {},
    }
}

} // verus!
