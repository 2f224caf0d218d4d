//! How values are written as Plutus data.

use vstd::prelude::*;
use vstd::utf8::{decode_utf8, encode_utf8, valid_utf8};

use crate::encoding::{hex_digits, hex_encode};
use crate::numbers::{be_value, Natural};
use crate::plutus::{cbor_bytes, cbor_tree, is_readable, is_writable, lemma_readable_is_writable};
use crate::plutus::{Plutus, PlutusData};

verus! {

/// Why a value could not be read.
#[derive(Debug, Clone, Copy, PartialEq, Eq, Structural)]
pub enum DecodeError {
    /// The bytes are not Plutus data.
    Cbor,
    ExpectedArray,
    ExpectedBigInt,
    SignedInteger,
    OutOfRange,
    UnexpectedBool,
    ExpectedBytes,
    Utf8,
    ExpectedStruct,
    StructTag(u64),
    FieldCount { expected: usize, found: usize },
    EnumTag,
    EnumData,
    UnexpectedVariant(u64),
    UnexpectedSignature,
}

/// A value that can be written as Plutus data.
pub trait PlutusCompatible: Sized {
    /// What there is to a value.
    type Model;

    spec fn model(&self) -> Self::Model;

    /// How it is written.
    spec fn written(model: Self::Model) -> Plutus;

    /// How it is read.
    spec fn read(data: Plutus) -> Result<Self::Model, DecodeError>;

    /// Every value can be written.
    proof fn lemma_written_is_readable(&self)
        ensures
            is_readable(Self::written(self.model())),
    ;

    /// What was written is read back.
    proof fn lemma_round_trip(&self)
        ensures
            Self::read(Self::written(self.model())) == Ok::<Self::Model, DecodeError>(self.model()),
    ;

    fn to_plutus(&self) -> (r: PlutusData)
        ensures
            r@ == Self::written(self.model()),
    ;

    fn from_plutus(data: PlutusData) -> (r: Result<Self, DecodeError>)
        ensures
            match r {
                Ok(value) => Self::read(data@) == Ok::<Self::Model, DecodeError>(value.model()),
                Err(error) => Self::read(data@) == Err::<Self::Model, DecodeError>(error),
            },
    ;
}

/// The Plutus data of a whole number: an integer where it fits in 63 bits, else its bytes.
pub open spec fn natural_written(value: nat, bytes: Seq<u8>) -> Plutus {
    if value <= i64::MAX {
        Plutus::Int(value as int)
    } else {
        Plutus::BigUInt(bytes)
    }
}

/// The shortest bytes of a whole number, the most significant first.
pub open spec fn be_bytes(value: nat) -> Seq<u8>
    decreases value,
{
    if value < 256 {
        seq![value as u8]
    } else {
        be_bytes(value / 256).push((value % 256) as u8)
    }
}

/// The shortest bytes of a number are the only ones without leading zeros.
pub proof fn lemma_be_bytes(bytes: Seq<u8>)
    requires
        bytes.len() > 0,
        bytes.len() > 1 ==> bytes[0] != 0,
    ensures
        be_bytes(be_value(bytes)) == bytes,
        bytes.len() > 1 ==> be_value(bytes) >= 256,
        bytes[0] != 0 ==> be_value(bytes) > 0,
    decreases bytes.len(),
{
    let front = bytes.drop_last();
    let value = be_value(bytes);
    assert(value == bytes.last() as nat + 256 * be_value(front));
    if bytes.len() == 1 {
        assert(front.len() == 0);
        assert(be_value(front) == 0);
        assert(be_bytes(value) =~= bytes);
    } else {
        lemma_be_bytes(front);
        assert(front[0] == bytes[0]);
        assert(value / 256 == be_value(front));
        assert(value % 256 == bytes.last() as nat);
        assert(be_bytes(value) =~= front.push(bytes.last()));
        assert(be_bytes(value) =~= bytes);
    }
}

/// The value of the shortest bytes.
pub proof fn lemma_be_bytes_value(value: nat)
    ensures
        be_value(be_bytes(value)) == value,
    decreases value,
{
    let bytes = be_bytes(value);
    if value < 256 {
        assert(bytes.drop_last().len() == 0);
        assert(be_value(bytes.drop_last()) == 0);
    } else {
        lemma_be_bytes_value(value / 256);
        assert(bytes.drop_last() =~= be_bytes(value / 256));
    }
}

impl PlutusCompatible for Natural {
    type Model = nat;

    open spec fn model(&self) -> nat {
        self@
    }

    open spec fn written(model: nat) -> Plutus {
        natural_written(model, be_bytes(model))
    }

    /// A negative integer is taken for its two's complement in 128 bits.
    open spec fn read(data: Plutus) -> Result<nat, DecodeError> {
        match data {
            Plutus::Int(value) => Ok(if value < 0 { (value + 0x1_0000_0000_0000_0000_0000_0000_0000_0000) as nat } else { value as nat }),
            Plutus::BigUInt(bytes) => Ok(be_value(bytes)),
            Plutus::BigNInt(_) => Err(DecodeError::SignedInteger),
            _ => Err(DecodeError::ExpectedBigInt),
        }
    }

    proof fn lemma_written_is_readable(&self) {
    }

    proof fn lemma_round_trip(&self) {
        lemma_be_bytes_value(self@);
    }

    fn to_plutus(&self) -> (r: PlutusData) {
        if let Some(value) = self.to_u64() {
            if value <= i64::MAX as u64 {
                return PlutusData::Int(value as i128);
            }
        }
        let bytes = self.to_bytes_be();
        proof {
            lemma_be_bytes(bytes@);
        }
        PlutusData::BigUInt(bytes)
    }

    fn from_plutus(data: PlutusData) -> (r: Result<Self, DecodeError>) {
        match data {
            PlutusData::Int(value) => {
                let raw: u128 = value as u128;
                assert(value < 0 ==> value as u128 == value + 0x1_0000_0000_0000_0000_0000_0000_0000_0000) by (bit_vector)
                    requires raw == value as u128;
                assert(value >= 0 ==> value as u128 == value) by (bit_vector);
                Ok(Natural::from_u128(raw))
            },
            PlutusData::BigUInt(bytes) => Ok(Natural::from_bytes_be(bytes.as_slice())),
            PlutusData::BigNInt(_) => Err(DecodeError::SignedInteger),
            _ => Err(DecodeError::ExpectedBigInt),
        }
    }
}

impl PlutusCompatible for u64 {
    type Model = u64;

    open spec fn model(&self) -> u64 {
        *self
    }

    open spec fn written(model: u64) -> Plutus {
        Natural::written(model as nat)
    }

    open spec fn read(data: Plutus) -> Result<u64, DecodeError> {
        match Natural::read(data) {
            Ok(value) => if value <= u64::MAX { Ok(value as u64) } else { Err(DecodeError::OutOfRange) },
            Err(error) => Err(error),
        }
    }

    proof fn lemma_written_is_readable(&self) {
    }

    proof fn lemma_round_trip(&self) {
        lemma_be_bytes_value(*self as nat);
    }

    fn to_plutus(&self) -> (r: PlutusData) {
        Natural::from_u64(*self).to_plutus()
    }

    fn from_plutus(data: PlutusData) -> (r: Result<Self, DecodeError>) {
        match Natural::from_plutus(data) {
            Ok(value) => match value.to_u64() {
                Some(value) => Ok(value),
                None => Err(DecodeError::OutOfRange),
            },
            Err(error) => Err(error),
        }
    }
}

/// The tag of a struct, and of an enum's first variant.
pub const CBOR_VARIANT_0: u64 = 121;

/// The trees of these values.
pub open spec fn trees(fields: Seq<PlutusData>) -> Seq<Plutus> {
    Seq::new(fields.len(), |i: int| fields[i]@)
}

/// How a struct is written.
pub open spec fn struct_written(fields: Seq<Plutus>) -> Plutus {
    Plutus::Constr { tag: CBOR_VARIANT_0, any_constructor: None, indefinite: true, fields }
}

/// How a struct of `count` fields is read.
pub open spec fn struct_read(data: Plutus, count: nat) -> Result<Seq<Plutus>, DecodeError> {
    match data {
        Plutus::Constr { tag, fields, .. } => {
            if tag != CBOR_VARIANT_0 {
                Err(DecodeError::StructTag(tag))
            } else if fields.len() != count {
                Err(DecodeError::FieldCount { expected: count as usize, found: fields.len() as usize })
            } else {
                Ok(fields)
            }
        },
        _ => Err(DecodeError::ExpectedStruct),
    }
}

/// How a variant of an enum is written.
pub open spec fn enum_written(variant: u64, value: Option<Plutus>) -> Plutus {
    Plutus::Constr {
        tag: (CBOR_VARIANT_0 + variant) as u64,
        any_constructor: None,
        indefinite: value is Some,
        fields: match value {
            Some(value) => seq![value],
            None => seq![],
        },
    }
}

/// How a variant of an enum is read.
pub open spec fn enum_read(data: Plutus) -> Result<(u64, Option<Plutus>), DecodeError> {
    match data {
        Plutus::Constr { tag, fields, .. } => {
            if tag < CBOR_VARIANT_0 {
                Err(DecodeError::EnumTag)
            } else if fields.len() > 1 {
                Err(DecodeError::EnumData)
            } else {
                Ok(((tag - CBOR_VARIANT_0) as u64, if fields.len() == 1 { Some(fields[0]) } else { None }))
            }
        },
        _ => Err(DecodeError::ExpectedStruct),
    }
}

/// The tree of this value, if there is one.
pub open spec fn tree_in(value: Option<PlutusData>) -> Option<Plutus> {
    match value {
        Some(value) => Some(value@),
        None => None,
    }
}

pub fn encode_struct(fields: Vec<PlutusData>) -> (r: PlutusData)
    ensures
        r@ == struct_written(trees(fields@)),
{
    let r = PlutusData::Constr { tag: CBOR_VARIANT_0, any_constructor: None, indefinite: true, fields };
    assert(r@->Constr_fields =~= trees(fields@));
    r
}

/// The fields of a struct that has `count` of them.
pub fn decode_struct(data: PlutusData, count: usize) -> (r: Result<Vec<PlutusData>, DecodeError>)
    ensures
        match r {
            Ok(fields) => struct_read(data@, count as nat) == Ok::<Seq<Plutus>, DecodeError>(trees(fields@)) && fields@.len() == count,
            Err(error) => struct_read(data@, count as nat) == Err::<Seq<Plutus>, DecodeError>(error),
        },
{
    match data {
        PlutusData::Constr { tag, fields, .. } => {
            assert(data@->Constr_fields =~= trees(fields@));
            if tag != CBOR_VARIANT_0 {
                return Err(DecodeError::StructTag(tag));
            }
            if fields.len() != count {
                return Err(DecodeError::FieldCount { expected: count, found: fields.len() });
            }
            Ok(fields)
        },
        _ => Err(DecodeError::ExpectedStruct),
    }
}

pub fn encode_enum(variant: u64, value: Option<PlutusData>) -> (r: PlutusData)
    requires
        CBOR_VARIANT_0 + variant <= u64::MAX,
    ensures
        r@ == enum_written(variant, tree_in(value)),
{
    let ghost expected = tree_in(value);
    let indefinite = value.is_some();
    let mut fields: Vec<PlutusData> = Vec::new();
    if let Some(value) = value {
        fields.push(value);
        assert(trees(fields@) =~= seq![expected->0]);
    } else {
        assert(trees(fields@) =~= seq![]);
    }
    let r = PlutusData::Constr { tag: CBOR_VARIANT_0 + variant, any_constructor: None, indefinite, fields };
    assert(r@->Constr_fields =~= trees(fields@));
    r
}

pub fn decode_enum(data: PlutusData) -> (r: Result<(u64, Option<PlutusData>), DecodeError>)
    ensures
        match r {
            Ok((variant, value)) => enum_read(data@) == Ok::<(u64, Option<Plutus>), DecodeError>(
                (variant, tree_in(value)),
            ),
            Err(error) => enum_read(data@) == Err::<(u64, Option<Plutus>), DecodeError>(error),
        },
{
    match data {
        PlutusData::Constr { tag, fields, .. } => {
            let mut fields = fields;
            assert(data@->Constr_fields =~= trees(fields@));
            if tag < CBOR_VARIANT_0 {
                return Err(DecodeError::EnumTag);
            }
            if fields.len() > 1 {
                return Err(DecodeError::EnumData);
            }
            Ok((tag - CBOR_VARIANT_0, fields.pop()))
        },
        _ => Err(DecodeError::ExpectedStruct),
    }
}

impl PlutusCompatible for bool {
    type Model = bool;

    open spec fn model(&self) -> bool {
        *self
    }

    open spec fn written(model: bool) -> Plutus {
        enum_written(if model { 1 } else { 0 }, None)
    }

    open spec fn read(data: Plutus) -> Result<bool, DecodeError> {
        match enum_read(data) {
            Ok((1, None)) => Ok(true),
            Ok((0, None)) => Ok(false),
            Ok(_) => Err(DecodeError::UnexpectedBool),
            Err(error) => Err(error),
        }
    }

    proof fn lemma_written_is_readable(&self) {
    }

    proof fn lemma_round_trip(&self) {
    }

    fn to_plutus(&self) -> (r: PlutusData) {
        encode_enum(if *self { 1 } else { 0 }, None)
    }

    fn from_plutus(data: PlutusData) -> (r: Result<Self, DecodeError>) {
        match decode_enum(data) {
            Ok((1, None)) => Ok(true),
            Ok((0, None)) => Ok(false),
            Ok(_) => Err(DecodeError::UnexpectedBool),
            Err(error) => Err(error),
        }
    }
}

/// `String::from_utf8` of the standard library: the string with these bytes, if they are UTF-8.
#[verifier::external_body]
pub(crate) fn string_from_utf8(bytes: Vec<u8>) -> (r: Option<String>)
    ensures
        r is Some <==> valid_utf8(bytes@),
        r is Some ==> r->0@ == decode_utf8(bytes@),
{
    String::from_utf8(bytes).ok()
}

impl PlutusCompatible for String {
    type Model = Seq<char>;

    open spec fn model(&self) -> Seq<char> {
        self@
    }

    open spec fn written(model: Seq<char>) -> Plutus {
        Plutus::BoundedBytes(encode_utf8(model))
    }

    open spec fn read(data: Plutus) -> Result<Seq<char>, DecodeError> {
        match data {
            Plutus::BoundedBytes(bytes) => if valid_utf8(bytes) { Ok(decode_utf8(bytes)) } else { Err(DecodeError::Utf8) },
            _ => Err(DecodeError::ExpectedBytes),
        }
    }

    proof fn lemma_written_is_readable(&self) {
    }

    proof fn lemma_round_trip(&self) {
        vstd::utf8::encode_utf8_valid_utf8(self@);
        vstd::utf8::encode_utf8_decode_utf8(self@);
    }

    fn to_plutus(&self) -> (r: PlutusData) {
        PlutusData::BoundedBytes(vstd::slice::slice_to_vec(self.as_str().as_bytes()))
    }

    fn from_plutus(data: PlutusData) -> (r: Result<Self, DecodeError>) {
        match data {
            PlutusData::BoundedBytes(bytes) => match string_from_utf8(bytes) {
                Some(text) => Ok(text),
                None => Err(DecodeError::Utf8),
            },
            _ => Err(DecodeError::ExpectedBytes),
        }
    }
}

/// The models of these values.
pub open spec fn models<T: PlutusCompatible>(values: Seq<T>) -> Seq<T::Model> {
    Seq::new(values.len(), |i: int| values[i].model())
}

/// Reading a list: the first item that cannot be read says why the list cannot.
pub open spec fn list_read<T: PlutusCompatible>(items: Seq<Plutus>) -> Result<Seq<T::Model>, DecodeError>
    decreases items.len(),
{
    if items.len() == 0 {
        Ok(seq![])
    } else {
        match list_read::<T>(items.drop_last()) {
            Ok(front) => match T::read(items.last()) {
                Ok(last) => Ok(front.push(last)),
                Err(error) => Err(error),
            },
            Err(error) => Err(error),
        }
    }
}

/// A list whose front cannot be read cannot be read either, for the same reason.
pub proof fn lemma_list_read_fails<T: PlutusCompatible>(items: Seq<Plutus>, count: int)
    requires
        0 <= count <= items.len(),
        list_read::<T>(items.take(count)) is Err,
    ensures
        list_read::<T>(items) == list_read::<T>(items.take(count)),
    decreases items.len(),
{
    if count == items.len() {
        assert(items.take(count) =~= items);
    } else {
        assert(items.drop_last().take(count) =~= items.take(count));
        lemma_list_read_fails::<T>(items.drop_last(), count);
    }
}

/// How a list is written.
pub open spec fn list_written<T: PlutusCompatible>(model: Seq<T::Model>) -> Plutus {
    Plutus::Array { indefinite: true, items: Seq::new(model.len(), |i: int| T::written(model[i])) }
}

/// A list that was written is read back.
pub proof fn lemma_list_round_trip<T: PlutusCompatible>(values: Seq<T>)
    ensures
        list_read::<T>(Seq::new(values.len(), |i: int| T::written(values[i].model()))) == Ok::<Seq<T::Model>, DecodeError>(
            models(values),
        ),
    decreases values.len(),
{
    let items = Seq::new(values.len(), |i: int| T::written(values[i].model()));
    if values.len() == 0 {
        assert(models(values) =~= seq![]);
    } else {
        let front = values.drop_last();
        lemma_list_round_trip::<T>(front);
        assert(items.drop_last() =~= Seq::new(front.len(), |i: int| T::written(front[i].model())));
        values.last().lemma_round_trip();
        assert(models(values) =~= models(front).push(values.last().model()));
    }
}

impl<T: PlutusCompatible> PlutusCompatible for Vec<T> {
    type Model = Seq<T::Model>;

    open spec fn model(&self) -> Seq<T::Model> {
        models(self@)
    }

    open spec fn written(model: Seq<T::Model>) -> Plutus {
        list_written::<T>(model)
    }

    open spec fn read(data: Plutus) -> Result<Seq<T::Model>, DecodeError> {
        match data {
            Plutus::Array { items, .. } => list_read::<T>(items),
            _ => Err(DecodeError::ExpectedArray),
        }
    }

    proof fn lemma_written_is_readable(&self) {
        let data = list_written::<T>(self.model());
        assert forall|i: int| 0 <= i < self@.len() implies is_readable(#[trigger] data->Array_items[i]) by {
            self@[i].lemma_written_is_readable();
        }
    }

    proof fn lemma_round_trip(&self) {
        lemma_list_round_trip::<T>(self@);
        assert(list_written::<T>(self.model())->Array_items =~= Seq::new(
            self@.len(),
            |i: int| T::written(self@[i].model()),
        ));
    }

    fn to_plutus(&self) -> (r: PlutusData) {
        let mut items: Vec<PlutusData> = Vec::new();
        let mut i: usize = 0;
        while i < self.len()
            invariant
                i <= self.len(),
                items.len() == i,
                forall|j: int| 0 <= j < i ==> (#[trigger] items@[j])@ == T::written(self@[j].model()),
            decreases self.len() - i,
        {
            items.push(self[i].to_plutus());
            i += 1;
        }
        let r = PlutusData::Array { indefinite: true, items };
        assert(r@->Array_items =~= list_written::<T>(self.model())->Array_items);
        r
    }

    fn from_plutus(data: PlutusData) -> (r: Result<Self, DecodeError>) {
        match data {
            PlutusData::Array { items, .. } => {
                let ghost all = trees(items@);
                assert(data@->Array_items =~= all);
                let mut rest = items;
                let mut values: Vec<T> = Vec::new();
                assert(models(values@) =~= seq![]);
                while rest.len() > 0
                    invariant
                        rest@.len() + values@.len() == all.len(),
                        forall|j: int| 0 <= j < rest@.len() ==> rest@[j]@ == #[trigger] all[j + values@.len()],
                        list_read::<T>(all.take(values@.len() as int)) == Ok::<Seq<T::Model>, DecodeError>(models(values@)),
                        data@ matches Plutus::Array { items, .. } && items == all,
                    decreases rest.len(),
                {
                    let ghost k = values@.len() as int;
                    let ghost before = values@;
                    assert(rest@[0]@ == all[0 + k]);
                    let item = rest.remove(0);
                    proof {
                        assert(all.take(k + 1).drop_last() =~= all.take(k));
                        assert(all.take(k + 1).last() == all[k]);
                    }
                    match T::from_plutus(item) {
                        Ok(value) => {
                            values.push(value);
                            assert(models(values@) =~= models(before).push(value.model()));
                        },
                        Err(error) => {
                            proof {
                                lemma_list_read_fails::<T>(all, k + 1);
                            }
                            return Err(error);
                        },
                    }
                    assert forall|j: int| 0 <= j < rest@.len() implies rest@[j]@ == #[trigger] all[j + values@.len()] by {
                        assert(rest@[j]@ == all[(j + 1) + k]);
                    }
                }
                assert(all.take(all.len() as int) =~= all);
                Ok(values)
            },
            _ => Err(DecodeError::ExpectedArray),
        }
    }
}

/// The value at the start of CBOR bytes.
pub open spec fn deserialized<T: PlutusCompatible>(bytes: Seq<u8>) -> Result<T::Model, DecodeError> {
    match cbor_tree(bytes) {
        Some(data) => T::read(data),
        None => Err(DecodeError::Cbor),
    }
}

/// The CBOR bytes of a value, from which `deserialize` gives it back.
pub fn serialize<T: PlutusCompatible>(data: &T) -> (r: Vec<u8>)
    ensures
        r@ == cbor_bytes(T::written(data.model())),
        deserialized::<T>(r@) == Ok::<T::Model, DecodeError>(data.model()),
{
    proof {
        data.lemma_written_is_readable();
        data.lemma_round_trip();
        lemma_readable_is_writable(T::written(data.model()));
    }
    crate::plutus::encode(&data.to_plutus())
}

/// The value at the start of CBOR bytes.
pub fn deserialize<T: PlutusCompatible>(bytes: &[u8]) -> (r: Result<T, DecodeError>)
    ensures
        match r {
            Ok(value) => deserialized::<T>(bytes@) == Ok::<T::Model, DecodeError>(value.model()),
            Err(error) => deserialized::<T>(bytes@) == Err::<T::Model, DecodeError>(error),
        },
{
    match crate::plutus::decode(bytes) {
        Some(data) => T::from_plutus(data),
        None => Err(DecodeError::Cbor),
    }
}

/// A list of one value.
pub open spec fn listed_alone(data: Plutus) -> Plutus {
    Plutus::Array { indefinite: true, items: seq![data] }
}

/// The CBOR bytes of a list of one value, in hexadecimal digits.
pub fn cbor_encode_in_list<T: PlutusCompatible>(feed: &T) -> (r: String)
    ensures
        r@ == hex_digits(cbor_bytes(listed_alone(T::written(feed.model())))),
{
    let mut items: Vec<PlutusData> = Vec::new();
    items.push(feed.to_plutus());
    proof {
        feed.lemma_written_is_readable();
        lemma_readable_is_writable(T::written(feed.model()));
    }
    let data = PlutusData::Array { indefinite: true, items };
    proof {
        assert(data@->items =~= seq![T::written(feed.model())]);
        assert forall|i: int| 0 <= i < data@->items.len() implies is_writable(#[trigger] data@->items[i]) by {}
    }
    hex_encode(crate::plutus::encode(&data).as_slice())
}

/// What is written is read back, unchanged.
pub proof fn law_written_values_are_read_back<T: PlutusCompatible>(value: &T)
    ensures
        T::read(T::written(value.model())) == Ok::<T::Model, DecodeError>(value.model()),
{
    value.lemma_round_trip();
}

/// The fields of a struct are read back as they were written.
pub proof fn law_structs_are_read_back(fields: Seq<Plutus>)
    ensures
        struct_read(struct_written(fields), fields.len()) == Ok::<Seq<Plutus>, DecodeError>(fields),
{
}

/// A variant of an enum, and what it holds, are read back as they were written.
pub proof fn law_variants_are_read_back(variant: u64, value: Option<Plutus>)
    requires
        CBOR_VARIANT_0 + variant <= u64::MAX,
    ensures
        enum_read(enum_written(variant, value)) == Ok::<(u64, Option<Plutus>), DecodeError>((variant, value)),
{
}

} // verus!
