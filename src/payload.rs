//! The payload envelope `{v: value, t: timestamp}`, at the level of BSON values: encoding a value
//! for a mapping and checking a received value against it.
use vstd::prelude::*;
use crate::interface::{first_match, Interface, InterfaceType, InterfaceView, Mapping, MappingView};
use crate::path::{valid_path, MappingPath};
use crate::types::{copy_vec, AstarteType, AstarteValue, MappingType, strings_view, blobs_view, value_type};

verus! {

/// A BSON scalar.
#[derive(Debug)]
pub enum BsonScalar {
    /// Bit pattern of a binary64.
    Double(u64),
    String(String),
    Binary(Vec<u8>),
    Boolean(bool),
    /// Milliseconds since the Unix epoch.
    DateTime(i64),
    Int32(i32),
    Int64(i64),
}

/// A BSON value that can stand in a field of the envelope or of an object.
#[derive(Debug)]
pub enum BsonItem {
    Null,
    Scalar(BsonScalar),
    Array(Vec<BsonScalar>),
    /// Any other BSON value (a nested document, a regular expression, ...).
    Other,
}

/// A field of an object document.
#[derive(Debug)]
pub struct BsonField {
    pub key: String,
    pub value: BsonItem,
}

/// The value `v` of an envelope: a single item, or the document of an object.
#[derive(Debug)]
pub enum BsonValue {
    Item(BsonItem),
    Document(Vec<BsonField>),
}

/// A decoded envelope: `t` is the optional timestamp in milliseconds.
#[derive(Debug)]
pub struct Envelope {
    pub v: BsonValue,
    pub t: Option<i64>,
}

pub enum ScalarView {
    Double(u64),
    String(Seq<char>),
    Binary(Seq<u8>),
    Boolean(bool),
    DateTime(i64),
    Int32(i32),
    Int64(i64),
}

pub enum ItemView {
    Null,
    Scalar(ScalarView),
    Array(Seq<ScalarView>),
    Other,
}

impl View for BsonScalar {
    type V = ScalarView;

    open spec fn view(&self) -> ScalarView {
        match self {
            BsonScalar::Double(d) => ScalarView::Double(*d),
            BsonScalar::String(s) => ScalarView::String(s@),
            BsonScalar::Binary(b) => ScalarView::Binary(b@),
            BsonScalar::Boolean(b) => ScalarView::Boolean(*b),
            BsonScalar::DateTime(t) => ScalarView::DateTime(*t),
            BsonScalar::Int32(i) => ScalarView::Int32(*i),
            BsonScalar::Int64(i) => ScalarView::Int64(*i),
        }
    }
}

pub open spec fn scalars_view(v: Seq<BsonScalar>) -> Seq<ScalarView> {
    v.map_values(|s: BsonScalar| s@)
}

impl View for BsonItem {
    type V = ItemView;

    open spec fn view(&self) -> ItemView {
        match self {
            BsonItem::Null => ItemView::Null,
            BsonItem::Scalar(s) => ItemView::Scalar(s@),
            BsonItem::Array(v) => ItemView::Array(scalars_view(v@)),
            BsonItem::Other => ItemView::Other,
        }
    }
}

/// Errors of the payload envelope.
#[derive(Debug, Clone, Copy, PartialEq, Eq, Structural)]
pub enum PayloadError {
    /// `Unset` on a mapping that does not allow it, or an empty payload there.
    Unset,
    /// A timestamp for a mapping without explicit timestamps.
    UnexpectedTimestamp,
    /// A value whose type differs from the mapping's.
    MismatchType,
    /// An object whose keys differ from the object's mappings.
    MissingOrExtraKey,
    /// A value of an unexpected shape (an object for an individual mapping or the reverse).
    UnexpectedShape,
}

/// The BSON form of a value.
pub open spec fn item_of(v: AstarteValue) -> ItemView {
    match v {
        AstarteValue::Double(d) => ItemView::Scalar(ScalarView::Double(d)),
        AstarteValue::Integer(i) => ItemView::Scalar(ScalarView::Int32(i)),
        AstarteValue::Boolean(b) => ItemView::Scalar(ScalarView::Boolean(b)),
        AstarteValue::LongInteger(i) => ItemView::Scalar(ScalarView::Int64(i)),
        AstarteValue::String(s) => ItemView::Scalar(ScalarView::String(s)),
        AstarteValue::BinaryBlob(b) => ItemView::Scalar(ScalarView::Binary(b)),
        AstarteValue::DateTime(t) => ItemView::Scalar(ScalarView::DateTime(t)),
        AstarteValue::DoubleArray(a) => ItemView::Array(a.map_values(|x: u64| ScalarView::Double(x))),
        AstarteValue::IntegerArray(a) => ItemView::Array(a.map_values(|x: i32| ScalarView::Int32(x))),
        AstarteValue::BooleanArray(a) => ItemView::Array(a.map_values(|x: bool| ScalarView::Boolean(x))),
        AstarteValue::LongIntegerArray(a) => ItemView::Array(a.map_values(|x: i64| ScalarView::Int64(x))),
        AstarteValue::StringArray(a) => ItemView::Array(a.map_values(|x: Seq<char>| ScalarView::String(x))),
        AstarteValue::BinaryBlobArray(a) => ItemView::Array(a.map_values(|x: Seq<u8>| ScalarView::Binary(x))),
        AstarteValue::DateTimeArray(a) => ItemView::Array(a.map_values(|x: i64| ScalarView::DateTime(x))),
        AstarteValue::Unset => ItemView::Null,
    }
}

/// A scalar read as the element type `ty`; a long integer also accepts a 32-bit integer.
pub open spec fn scalar_as(s: ScalarView, ty: MappingType) -> Option<AstarteValue> {
    match (s, ty) {
        (ScalarView::Double(d), MappingType::Double) => Some(AstarteValue::Double(d)),
        (ScalarView::Int32(i), MappingType::Integer) => Some(AstarteValue::Integer(i)),
        (ScalarView::Boolean(b), MappingType::Boolean) => Some(AstarteValue::Boolean(b)),
        (ScalarView::Int64(i), MappingType::LongInteger) => Some(AstarteValue::LongInteger(i)),
        (ScalarView::Int32(i), MappingType::LongInteger) => Some(AstarteValue::LongInteger(i as i64)),
        (ScalarView::String(s), MappingType::String) => Some(AstarteValue::String(s)),
        (ScalarView::Binary(b), MappingType::BinaryBlob) => Some(AstarteValue::BinaryBlob(b)),
        (ScalarView::DateTime(t), MappingType::DateTime) => Some(AstarteValue::DateTime(t)),
        _ => None,
    }
}

/// The scalar type of the elements of an array type.
pub open spec fn element_type(ty: MappingType) -> Option<MappingType> {
    match ty {
        MappingType::DoubleArray => Some(MappingType::Double),
        MappingType::IntegerArray => Some(MappingType::Integer),
        MappingType::BooleanArray => Some(MappingType::Boolean),
        MappingType::LongIntegerArray => Some(MappingType::LongInteger),
        MappingType::StringArray => Some(MappingType::String),
        MappingType::BinaryBlobArray => Some(MappingType::BinaryBlob),
        MappingType::DateTimeArray => Some(MappingType::DateTime),
        _ => None,
    }
}

/// An array value from its elements, each already read as the element type.
pub open spec fn array_of(ty: MappingType, es: Seq<AstarteValue>) -> AstarteValue {
    match ty {
        MappingType::DoubleArray => AstarteValue::DoubleArray(es.map_values(|e: AstarteValue| e->Double_0)),
        MappingType::IntegerArray => AstarteValue::IntegerArray(es.map_values(|e: AstarteValue| e->Integer_0)),
        MappingType::BooleanArray => AstarteValue::BooleanArray(es.map_values(|e: AstarteValue| e->Boolean_0)),
        MappingType::LongIntegerArray => AstarteValue::LongIntegerArray(es.map_values(|e: AstarteValue| e->LongInteger_0)),
        MappingType::StringArray => AstarteValue::StringArray(es.map_values(|e: AstarteValue| e->String_0)),
        MappingType::BinaryBlobArray => AstarteValue::BinaryBlobArray(es.map_values(|e: AstarteValue| e->BinaryBlob_0)),
        _ => AstarteValue::DateTimeArray(es.map_values(|e: AstarteValue| e->DateTime_0)),
    }
}

/// A BSON item read as a value of type `ty`.
pub open spec fn value_as(i: ItemView, ty: MappingType) -> Option<AstarteValue> {
    match i {
        ItemView::Scalar(s) => scalar_as(s, ty),
        ItemView::Array(a) => match element_type(ty) {
            Some(et) => if forall|k: int| 0 <= k < a.len() ==> (#[trigger] scalar_as(a[k], et)) is Some {
                Some(array_of(ty, a.map_values(|s: ScalarView| scalar_as(s, et)->Some_0)))
            } else {
                None
            },
            None => None,
        },
        _ => None,
    }
}

fn encode_doubles(v: &Vec<u64>) -> (r: Vec<BsonScalar>)
    ensures
        scalars_view(r@) == v@.map_values(|x: u64| ScalarView::Double(x)),
{
    let mut r: Vec<BsonScalar> = Vec::new();
    let mut i: usize = 0;
    while i < v.len()
        invariant
            i <= v@.len(),
            r@.len() == i,
            forall|k: int| 0 <= k < i ==> (#[trigger] r@[k])@ == ScalarView::Double(v@[k]),
        decreases v@.len() - i,
    {
        r.push(BsonScalar::Double(v[i]));
        i = i + 1;
    }
    assert(scalars_view(r@) =~= v@.map_values(|x: u64| ScalarView::Double(x)));
    r
}

fn encode_integers(v: &Vec<i32>) -> (r: Vec<BsonScalar>)
    ensures
        scalars_view(r@) == v@.map_values(|x: i32| ScalarView::Int32(x)),
{
    let mut r: Vec<BsonScalar> = Vec::new();
    let mut i: usize = 0;
    while i < v.len()
        invariant
            i <= v@.len(),
            r@.len() == i,
            forall|k: int| 0 <= k < i ==> (#[trigger] r@[k])@ == ScalarView::Int32(v@[k]),
        decreases v@.len() - i,
    {
        r.push(BsonScalar::Int32(v[i]));
        i = i + 1;
    }
    assert(scalars_view(r@) =~= v@.map_values(|x: i32| ScalarView::Int32(x)));
    r
}

fn encode_booleans(v: &Vec<bool>) -> (r: Vec<BsonScalar>)
    ensures
        scalars_view(r@) == v@.map_values(|x: bool| ScalarView::Boolean(x)),
{
    let mut r: Vec<BsonScalar> = Vec::new();
    let mut i: usize = 0;
    while i < v.len()
        invariant
            i <= v@.len(),
            r@.len() == i,
            forall|k: int| 0 <= k < i ==> (#[trigger] r@[k])@ == ScalarView::Boolean(v@[k]),
        decreases v@.len() - i,
    {
        r.push(BsonScalar::Boolean(v[i]));
        i = i + 1;
    }
    assert(scalars_view(r@) =~= v@.map_values(|x: bool| ScalarView::Boolean(x)));
    r
}

fn encode_long_integers(v: &Vec<i64>) -> (r: Vec<BsonScalar>)
    ensures
        scalars_view(r@) == v@.map_values(|x: i64| ScalarView::Int64(x)),
{
    let mut r: Vec<BsonScalar> = Vec::new();
    let mut i: usize = 0;
    while i < v.len()
        invariant
            i <= v@.len(),
            r@.len() == i,
            forall|k: int| 0 <= k < i ==> (#[trigger] r@[k])@ == ScalarView::Int64(v@[k]),
        decreases v@.len() - i,
    {
        r.push(BsonScalar::Int64(v[i]));
        i = i + 1;
    }
    assert(scalars_view(r@) =~= v@.map_values(|x: i64| ScalarView::Int64(x)));
    r
}

fn encode_date_times(v: &Vec<i64>) -> (r: Vec<BsonScalar>)
    ensures
        scalars_view(r@) == v@.map_values(|x: i64| ScalarView::DateTime(x)),
{
    let mut r: Vec<BsonScalar> = Vec::new();
    let mut i: usize = 0;
    while i < v.len()
        invariant
            i <= v@.len(),
            r@.len() == i,
            forall|k: int| 0 <= k < i ==> (#[trigger] r@[k])@ == ScalarView::DateTime(v@[k]),
        decreases v@.len() - i,
    {
        r.push(BsonScalar::DateTime(v[i]));
        i = i + 1;
    }
    assert(scalars_view(r@) =~= v@.map_values(|x: i64| ScalarView::DateTime(x)));
    r
}

fn encode_strings(v: &Vec<String>) -> (r: Vec<BsonScalar>)
    ensures
        scalars_view(r@) == strings_view(v@).map_values(|x: Seq<char>| ScalarView::String(x)),
{
    let mut r: Vec<BsonScalar> = Vec::new();
    let mut i: usize = 0;
    while i < v.len()
        invariant
            i <= v@.len(),
            r@.len() == i,
            forall|k: int| 0 <= k < i ==> (#[trigger] r@[k])@ == ScalarView::String(v@[k]@),
        decreases v@.len() - i,
    {
        r.push(BsonScalar::String(v[i].clone()));
        i = i + 1;
    }
    assert(scalars_view(r@) =~= strings_view(v@).map_values(|x: Seq<char>| ScalarView::String(x)));
    r
}

fn encode_blobs(v: &Vec<Vec<u8>>) -> (r: Vec<BsonScalar>)
    ensures
        scalars_view(r@) == blobs_view(v@).map_values(|x: Seq<u8>| ScalarView::Binary(x)),
{
    let mut r: Vec<BsonScalar> = Vec::new();
    let mut i: usize = 0;
    while i < v.len()
        invariant
            i <= v@.len(),
            r@.len() == i,
            forall|k: int| 0 <= k < i ==> (#[trigger] r@[k])@ == ScalarView::Binary(v@[k]@),
        decreases v@.len() - i,
    {
        r.push(BsonScalar::Binary(copy_vec(&v[i])));
        i = i + 1;
    }
    assert(scalars_view(r@) =~= blobs_view(v@).map_values(|x: Seq<u8>| ScalarView::Binary(x)));
    r
}

/// The BSON form of a value.
pub fn encode_value(v: &AstarteType) -> (r: BsonItem)
    ensures
        r@ == item_of(v@),
{
    match v {
        AstarteType::Double(d) => BsonItem::Scalar(BsonScalar::Double(*d)),
        AstarteType::Integer(i) => BsonItem::Scalar(BsonScalar::Int32(*i)),
        AstarteType::Boolean(b) => BsonItem::Scalar(BsonScalar::Boolean(*b)),
        AstarteType::LongInteger(i) => BsonItem::Scalar(BsonScalar::Int64(*i)),
        AstarteType::String(s) => BsonItem::Scalar(BsonScalar::String(s.clone())),
        AstarteType::BinaryBlob(b) => BsonItem::Scalar(BsonScalar::Binary(copy_vec(b))),
        AstarteType::DateTime(t) => BsonItem::Scalar(BsonScalar::DateTime(*t)),
        AstarteType::DoubleArray(a) => BsonItem::Array(encode_doubles(a)),
        AstarteType::IntegerArray(a) => BsonItem::Array(encode_integers(a)),
        AstarteType::BooleanArray(a) => BsonItem::Array(encode_booleans(a)),
        AstarteType::LongIntegerArray(a) => BsonItem::Array(encode_long_integers(a)),
        AstarteType::StringArray(a) => BsonItem::Array(encode_strings(a)),
        AstarteType::BinaryBlobArray(a) => BsonItem::Array(encode_blobs(a)),
        AstarteType::DateTimeArray(a) => BsonItem::Array(encode_date_times(a)),
        AstarteType::Unset => BsonItem::Null,
    }
}

/// A scalar read as the scalar type `ty`.
pub fn decode_scalar(s: &BsonScalar, ty: MappingType) -> (r: Option<AstarteType>)
    ensures
        match r {
            Some(v) => scalar_as(s@, ty) == Some(v@),
            None => scalar_as(s@, ty) is None,
        },
{
    match (s, ty) {
        (BsonScalar::Double(d), MappingType::Double) => Some(AstarteType::Double(*d)),
        (BsonScalar::Int32(i), MappingType::Integer) => Some(AstarteType::Integer(*i)),
        (BsonScalar::Boolean(b), MappingType::Boolean) => Some(AstarteType::Boolean(*b)),
        (BsonScalar::Int64(i), MappingType::LongInteger) => Some(AstarteType::LongInteger(*i)),
        (BsonScalar::Int32(i), MappingType::LongInteger) => Some(AstarteType::LongInteger(*i as i64)),
        (BsonScalar::String(s), MappingType::String) => Some(AstarteType::String(s.clone())),
        (BsonScalar::Binary(b), MappingType::BinaryBlob) => Some(AstarteType::BinaryBlob(copy_vec(b))),
        (BsonScalar::DateTime(t), MappingType::DateTime) => Some(AstarteType::DateTime(*t)),
        _ => None,
    }
}

fn decode_doubles(a: &Vec<BsonScalar>) -> (r: Option<AstarteType>)
    ensures
        match r {
            Some(v) => value_as(ItemView::Array(scalars_view(a@)), MappingType::DoubleArray) == Some(v@),
            None => value_as(ItemView::Array(scalars_view(a@)), MappingType::DoubleArray) is None,
        },
{
    let ghost sa = scalars_view(a@);
    let mut out: Vec<u64> = Vec::new();
    let mut i: usize = 0;
    while i < a.len()
        invariant
            sa == scalars_view(a@),
            i <= a@.len(),
            out@.len() == i,
            forall|k: int| 0 <= k < i ==> (#[trigger] scalar_as(sa[k], MappingType::Double)) == Some(AstarteValue::Double(out@[k])),
        decreases a@.len() - i,
    {
        match decode_scalar(&a[i], MappingType::Double) {
            Some(AstarteType::Double(x)) => {
                out.push(x);
            },
            _ => {
                assert(scalar_as(sa[i as int], MappingType::Double) is None);
                return None;
            },
        }
        i = i + 1;
    }
    proof {
        let es = sa.map_values(|s: ScalarView| scalar_as(s, MappingType::Double)->Some_0);
        assert(es.map_values(|e: AstarteValue| e->Double_0) =~= out@);
    }
    Some(AstarteType::DoubleArray(out))
}

fn decode_integers(a: &Vec<BsonScalar>) -> (r: Option<AstarteType>)
    ensures
        match r {
            Some(v) => value_as(ItemView::Array(scalars_view(a@)), MappingType::IntegerArray) == Some(v@),
            None => value_as(ItemView::Array(scalars_view(a@)), MappingType::IntegerArray) is None,
        },
{
    let ghost sa = scalars_view(a@);
    let mut out: Vec<i32> = Vec::new();
    let mut i: usize = 0;
    while i < a.len()
        invariant
            sa == scalars_view(a@),
            i <= a@.len(),
            out@.len() == i,
            forall|k: int| 0 <= k < i ==> (#[trigger] scalar_as(sa[k], MappingType::Integer)) == Some(AstarteValue::Integer(out@[k])),
        decreases a@.len() - i,
    {
        match decode_scalar(&a[i], MappingType::Integer) {
            Some(AstarteType::Integer(x)) => {
                out.push(x);
            },
            _ => {
                assert(scalar_as(sa[i as int], MappingType::Integer) is None);
                return None;
            },
        }
        i = i + 1;
    }
    proof {
        let es = sa.map_values(|s: ScalarView| scalar_as(s, MappingType::Integer)->Some_0);
        assert(es.map_values(|e: AstarteValue| e->Integer_0) =~= out@);
    }
    Some(AstarteType::IntegerArray(out))
}

fn decode_booleans(a: &Vec<BsonScalar>) -> (r: Option<AstarteType>)
    ensures
        match r {
            Some(v) => value_as(ItemView::Array(scalars_view(a@)), MappingType::BooleanArray) == Some(v@),
            None => value_as(ItemView::Array(scalars_view(a@)), MappingType::BooleanArray) is None,
        },
{
    let ghost sa = scalars_view(a@);
    let mut out: Vec<bool> = Vec::new();
    let mut i: usize = 0;
    while i < a.len()
        invariant
            sa == scalars_view(a@),
            i <= a@.len(),
            out@.len() == i,
            forall|k: int| 0 <= k < i ==> (#[trigger] scalar_as(sa[k], MappingType::Boolean)) == Some(AstarteValue::Boolean(out@[k])),
        decreases a@.len() - i,
    {
        match decode_scalar(&a[i], MappingType::Boolean) {
            Some(AstarteType::Boolean(x)) => {
                out.push(x);
            },
            _ => {
                assert(scalar_as(sa[i as int], MappingType::Boolean) is None);
                return None;
            },
        }
        i = i + 1;
    }
    proof {
        let es = sa.map_values(|s: ScalarView| scalar_as(s, MappingType::Boolean)->Some_0);
        assert(es.map_values(|e: AstarteValue| e->Boolean_0) =~= out@);
    }
    Some(AstarteType::BooleanArray(out))
}

fn decode_long_integers(a: &Vec<BsonScalar>) -> (r: Option<AstarteType>)
    ensures
        match r {
            Some(v) => value_as(ItemView::Array(scalars_view(a@)), MappingType::LongIntegerArray) == Some(v@),
            None => value_as(ItemView::Array(scalars_view(a@)), MappingType::LongIntegerArray) is None,
        },
{
    let ghost sa = scalars_view(a@);
    let mut out: Vec<i64> = Vec::new();
    let mut i: usize = 0;
    while i < a.len()
        invariant
            sa == scalars_view(a@),
            i <= a@.len(),
            out@.len() == i,
            forall|k: int| 0 <= k < i ==> (#[trigger] scalar_as(sa[k], MappingType::LongInteger)) == Some(AstarteValue::LongInteger(out@[k])),
        decreases a@.len() - i,
    {
        match decode_scalar(&a[i], MappingType::LongInteger) {
            Some(AstarteType::LongInteger(x)) => {
                out.push(x);
            },
            _ => {
                assert(scalar_as(sa[i as int], MappingType::LongInteger) is None);
                return None;
            },
        }
        i = i + 1;
    }
    proof {
        let es = sa.map_values(|s: ScalarView| scalar_as(s, MappingType::LongInteger)->Some_0);
        assert(es.map_values(|e: AstarteValue| e->LongInteger_0) =~= out@);
    }
    Some(AstarteType::LongIntegerArray(out))
}

fn decode_date_times(a: &Vec<BsonScalar>) -> (r: Option<AstarteType>)
    ensures
        match r {
            Some(v) => value_as(ItemView::Array(scalars_view(a@)), MappingType::DateTimeArray) == Some(v@),
            None => value_as(ItemView::Array(scalars_view(a@)), MappingType::DateTimeArray) is None,
        },
{
    let ghost sa = scalars_view(a@);
    let mut out: Vec<i64> = Vec::new();
    let mut i: usize = 0;
    while i < a.len()
        invariant
            sa == scalars_view(a@),
            i <= a@.len(),
            out@.len() == i,
            forall|k: int| 0 <= k < i ==> (#[trigger] scalar_as(sa[k], MappingType::DateTime)) == Some(AstarteValue::DateTime(out@[k])),
        decreases a@.len() - i,
    {
        match decode_scalar(&a[i], MappingType::DateTime) {
            Some(AstarteType::DateTime(x)) => {
                out.push(x);
            },
            _ => {
                assert(scalar_as(sa[i as int], MappingType::DateTime) is None);
                return None;
            },
        }
        i = i + 1;
    }
    proof {
        let es = sa.map_values(|s: ScalarView| scalar_as(s, MappingType::DateTime)->Some_0);
        assert(es.map_values(|e: AstarteValue| e->DateTime_0) =~= out@);
    }
    Some(AstarteType::DateTimeArray(out))
}

fn decode_strings(a: &Vec<BsonScalar>) -> (r: Option<AstarteType>)
    ensures
        match r {
            Some(v) => value_as(ItemView::Array(scalars_view(a@)), MappingType::StringArray) == Some(v@),
            None => value_as(ItemView::Array(scalars_view(a@)), MappingType::StringArray) is None,
        },
{
    let ghost sa = scalars_view(a@);
    let mut out: Vec<String> = Vec::new();
    let mut i: usize = 0;
    while i < a.len()
        invariant
            sa == scalars_view(a@),
            i <= a@.len(),
            out@.len() == i,
            forall|k: int| 0 <= k < i ==> (#[trigger] scalar_as(sa[k], MappingType::String)) == Some(AstarteValue::String(out@[k]@)),
        decreases a@.len() - i,
    {
        match decode_scalar(&a[i], MappingType::String) {
            Some(AstarteType::String(x)) => {
                out.push(x);
            },
            _ => {
                assert(scalar_as(sa[i as int], MappingType::String) is None);
                return None;
            },
        }
        i = i + 1;
    }
    proof {
        let es = sa.map_values(|s: ScalarView| scalar_as(s, MappingType::String)->Some_0);
        assert(es.map_values(|e: AstarteValue| e->String_0) =~= strings_view(out@));
    }
    Some(AstarteType::StringArray(out))
}

fn decode_blobs(a: &Vec<BsonScalar>) -> (r: Option<AstarteType>)
    ensures
        match r {
            Some(v) => value_as(ItemView::Array(scalars_view(a@)), MappingType::BinaryBlobArray) == Some(v@),
            None => value_as(ItemView::Array(scalars_view(a@)), MappingType::BinaryBlobArray) is None,
        },
{
    let ghost sa = scalars_view(a@);
    let mut out: Vec<Vec<u8>> = Vec::new();
    let mut i: usize = 0;
    while i < a.len()
        invariant
            sa == scalars_view(a@),
            i <= a@.len(),
            out@.len() == i,
            forall|k: int| 0 <= k < i ==> (#[trigger] scalar_as(sa[k], MappingType::BinaryBlob)) == Some(AstarteValue::BinaryBlob(out@[k]@)),
        decreases a@.len() - i,
    {
        match decode_scalar(&a[i], MappingType::BinaryBlob) {
            Some(AstarteType::BinaryBlob(x)) => {
                out.push(x);
            },
            _ => {
                assert(scalar_as(sa[i as int], MappingType::BinaryBlob) is None);
                return None;
            },
        }
        i = i + 1;
    }
    proof {
        let es = sa.map_values(|s: ScalarView| scalar_as(s, MappingType::BinaryBlob)->Some_0);
        assert(es.map_values(|e: AstarteValue| e->BinaryBlob_0) =~= blobs_view(out@));
    }
    Some(AstarteType::BinaryBlobArray(out))
}

/// A BSON item read as a value of type `ty`.
pub fn decode_value(item: &BsonItem, ty: MappingType) -> (r: Option<AstarteType>)
    ensures
        match r {
            Some(v) => value_as(item@, ty) == Some(v@),
            None => value_as(item@, ty) is None,
        },
{
    match item {
        BsonItem::Scalar(s) => decode_scalar(s, ty),
        BsonItem::Array(a) => match ty {
            MappingType::DoubleArray => decode_doubles(a),
            MappingType::IntegerArray => decode_integers(a),
            MappingType::BooleanArray => decode_booleans(a),
            MappingType::LongIntegerArray => decode_long_integers(a),
            MappingType::StringArray => decode_strings(a),
            MappingType::BinaryBlobArray => decode_blobs(a),
            MappingType::DateTimeArray => decode_date_times(a),
            _ => None,
        },
        _ => None,
    }
}

/// Reading the BSON form of a value with the value's own type gives the value back.
pub proof fn lemma_value_round_trip(v: AstarteValue)
    requires
        !(v is Unset),
    ensures
        value_as(item_of(v), value_type(v)->Some_0) == Some(v),
{
    match v {
        AstarteValue::DoubleArray(a) => {
            let sa = a.map_values(|x: u64| ScalarView::Double(x));
            let es = sa.map_values(|s: ScalarView| scalar_as(s, MappingType::Double)->Some_0);
            assert(es.map_values(|e: AstarteValue| e->Double_0) =~= a);
        },
        AstarteValue::IntegerArray(a) => {
            let sa = a.map_values(|x: i32| ScalarView::Int32(x));
            let es = sa.map_values(|s: ScalarView| scalar_as(s, MappingType::Integer)->Some_0);
            assert(es.map_values(|e: AstarteValue| e->Integer_0) =~= a);
        },
        AstarteValue::BooleanArray(a) => {
            let sa = a.map_values(|x: bool| ScalarView::Boolean(x));
            let es = sa.map_values(|s: ScalarView| scalar_as(s, MappingType::Boolean)->Some_0);
            assert(es.map_values(|e: AstarteValue| e->Boolean_0) =~= a);
        },
        AstarteValue::LongIntegerArray(a) => {
            let sa = a.map_values(|x: i64| ScalarView::Int64(x));
            let es = sa.map_values(|s: ScalarView| scalar_as(s, MappingType::LongInteger)->Some_0);
            assert(es.map_values(|e: AstarteValue| e->LongInteger_0) =~= a);
        },
        AstarteValue::StringArray(a) => {
            let sa = a.map_values(|x: Seq<char>| ScalarView::String(x));
            let es = sa.map_values(|s: ScalarView| scalar_as(s, MappingType::String)->Some_0);
            assert(es.map_values(|e: AstarteValue| e->String_0) =~= a);
        },
        AstarteValue::BinaryBlobArray(a) => {
            let sa = a.map_values(|x: Seq<u8>| ScalarView::Binary(x));
            let es = sa.map_values(|s: ScalarView| scalar_as(s, MappingType::BinaryBlob)->Some_0);
            assert(es.map_values(|e: AstarteValue| e->BinaryBlob_0) =~= a);
        },
        AstarteValue::DateTimeArray(a) => {
            let sa = a.map_values(|x: i64| ScalarView::DateTime(x));
            let es = sa.map_values(|s: ScalarView| scalar_as(s, MappingType::DateTime)->Some_0);
            assert(es.map_values(|e: AstarteValue| e->DateTime_0) =~= a);
        },
        _ => {},
    }
}

/// What an envelope holds, as plain values.
pub enum ValueView {
    Item(ItemView),
    Document(Seq<(Seq<char>, ItemView)>),
}

pub open spec fn fields_view(v: Seq<BsonField>) -> Seq<(Seq<char>, ItemView)> {
    v.map_values(|f: BsonField| (f.key@, f.value@))
}

impl View for BsonValue {
    type V = ValueView;

    open spec fn view(&self) -> ValueView {
        match self {
            BsonValue::Item(i) => ValueView::Item(i@),
            BsonValue::Document(f) => ValueView::Document(fields_view(f@)),
        }
    }
}

/// An object's data: names of its mappings and values.
pub open spec fn data_view(d: Seq<(String, AstarteType)>) -> Seq<(Seq<char>, AstarteValue)> {
    d.map_values(|e: (String, AstarteType)| (e.0@, e.1@))
}

/// `Unset` is legal only on a property mapping that allows it.
pub open spec fn unset_allowed(kind: InterfaceType, m: MappingView) -> bool {
    kind == InterfaceType::Properties && m.allow_unset
}

/// Why a value cannot be sent on a mapping of an interface of type `kind`, checked in this
/// order.
pub open spec fn individual_fault(kind: InterfaceType, m: MappingView, v: AstarteValue, ts: Option<i64>) -> Option<PayloadError> {
    if v is Unset {
        if unset_allowed(kind, m) {
            None
        } else {
            Some(PayloadError::Unset)
        }
    } else if value_type(v) != Some(m.mapping_type) {
        Some(PayloadError::MismatchType)
    } else if ts is Some && !m.explicit_timestamp {
        Some(PayloadError::UnexpectedTimestamp)
    } else {
        None
    }
}

/// What an envelope sent for an individual value holds; `None` is the empty payload of an unset.
pub open spec fn individual_envelope(v: AstarteValue, ts: Option<i64>) -> Option<(ValueView, Option<i64>)> {
    if v is Unset {
        None
    } else {
        Some((ValueView::Item(item_of(v)), ts))
    }
}

/// What a received individual payload decodes to on a mapping of an interface of type `kind`.
pub open spec fn individual_decoded(kind: InterfaceType, m: MappingView, p: Option<(ValueView, Option<i64>)>) -> Result<(AstarteValue, Option<i64>), PayloadError> {
    match p {
        None => if unset_allowed(kind, m) {
            Ok((AstarteValue::Unset, None))
        } else {
            Err(PayloadError::Unset)
        },
        Some((ValueView::Item(i), t)) => match value_as(i, m.mapping_type) {
            Some(v) => Ok((v, t)),
            None => Err(PayloadError::MismatchType),
        },
        Some((ValueView::Document(_), _)) => Err(PayloadError::UnexpectedShape),
    }
}

pub open spec fn envelope_view(e: Option<Envelope>) -> Option<(ValueView, Option<i64>)> {
    match e {
        Some(env) => Some((env.v@, env.t)),
        None => None,
    }
}

/// Encodes an individual value for a mapping of an interface of type `kind`; `Ok(None)` is
/// the empty payload of an unset.
pub fn serialize_individual(kind: InterfaceType, mapping: &Mapping, data: &AstarteType, timestamp: Option<i64>) -> (r: Result<Option<Envelope>, PayloadError>)
    ensures
        match individual_fault(kind, mapping@, data@, timestamp) {
            Some(e) => r == Err::<Option<Envelope>, PayloadError>(e),
            None => r matches Ok(o) && envelope_view(o) == individual_envelope(data@, timestamp),
        },
{
    if data.is_unset() {
        if kind == InterfaceType::Properties && mapping.allow_unset {
            return Ok(None);
        } else {
            return Err(PayloadError::Unset);
        }
    }
    match data.mapping_type() {
        Some(t) => {
            if t != mapping.mapping_type {
                return Err(PayloadError::MismatchType);
            }
        },
        None => {
            return Err(PayloadError::MismatchType);
        },
    }
    if timestamp.is_some() && !mapping.explicit_timestamp {
        return Err(PayloadError::UnexpectedTimestamp);
    }
    Ok(Some(Envelope { v: BsonValue::Item(encode_value(data)), t: timestamp }))
}

/// Decodes an individual payload for a mapping of an interface of type `kind`; `None` is the
/// empty payload.
pub fn deserialize_individual(kind: InterfaceType, mapping: &Mapping, payload: &Option<Envelope>) -> (r: Result<(AstarteType, Option<i64>), PayloadError>)
    ensures
        match r {
            Ok((v, t)) => individual_decoded(kind, mapping@, envelope_view(*payload)) == Ok::<(AstarteValue, Option<i64>), PayloadError>((v@, t)),
            Err(e) => individual_decoded(kind, mapping@, envelope_view(*payload)) == Err::<(AstarteValue, Option<i64>), PayloadError>(e),
        },
{
    match payload {
        None => {
            if kind == InterfaceType::Properties && mapping.allow_unset {
                Ok((AstarteType::Unset, None))
            } else {
                Err(PayloadError::Unset)
            }
        },
        Some(env) => match &env.v {
            BsonValue::Item(i) => match decode_value(i, mapping.mapping_type) {
                Some(v) => Ok((v, env.t)),
                None => Err(PayloadError::MismatchType),
            },
            BsonValue::Document(_) => Err(PayloadError::UnexpectedShape),
        },
    }
}

/// Sending a value and reading it back with the same mapping gives the value and the timestamp
/// back.
pub proof fn lemma_individual_round_trip(kind: InterfaceType, m: MappingView, v: AstarteValue, ts: Option<i64>)
    requires
        individual_fault(kind, m, v, ts) is None,
    ensures
        v is Unset ==> individual_decoded(kind, m, individual_envelope(v, ts)) == Ok::<(AstarteValue, Option<i64>), PayloadError>((v, None)),
        !(v is Unset) ==> individual_decoded(kind, m, individual_envelope(v, ts)) == Ok::<(AstarteValue, Option<i64>), PayloadError>((v, ts)),
{
    if !(v is Unset) {
        lemma_value_round_trip(v);
    }
}

/// The path of the field `key` of an object published on `path`.
pub open spec fn field_path(path: Seq<char>, key: Seq<char>) -> Seq<char> {
    path + seq!['/'] + key
}

/// Index of the object mapping that the field `key` stands for.
pub open spec fn field_index(i: InterfaceView, path: Seq<char>, key: Seq<char>) -> Option<int> {
    if valid_path(field_path(path, key)) {
        first_match(i.mappings, field_path(path, key))
    } else {
        None
    }
}

/// The keys name each mapping of the object exactly once.
pub open spec fn keys_fit(i: InterfaceView, path: Seq<char>, keys: Seq<Seq<char>>) -> bool {
    &&& keys.len() == i.mappings.len()
    &&& forall|a: int| 0 <= a < keys.len() ==> (#[trigger] field_index(i, path, keys[a])) is Some
    &&& forall|a: int, b: int| 0 <= a < b < keys.len() ==> #[trigger] field_index(i, path, keys[a]) != #[trigger] field_index(i, path, keys[b])
}

/// Every value has the type of the mapping its key names.
pub open spec fn types_fit(i: InterfaceView, path: Seq<char>, d: Seq<(Seq<char>, AstarteValue)>) -> bool {
    forall|a: int| 0 <= a < d.len() ==> value_type((#[trigger] d[a]).1) == Some(i.mappings[field_index(i, path, d[a].0)->Some_0].mapping_type)
}

/// Why an object cannot be sent, checked in this order.
pub open spec fn object_fault(i: InterfaceView, path: Seq<char>, d: Seq<(Seq<char>, AstarteValue)>, ts: Option<i64>) -> Option<PayloadError> {
    if !keys_fit(i, path, d.map_values(|e: (Seq<char>, AstarteValue)| e.0)) {
        Some(PayloadError::MissingOrExtraKey)
    } else if !types_fit(i, path, d) {
        Some(PayloadError::MismatchType)
    } else if ts is Some && !i.mappings[0].explicit_timestamp {
        Some(PayloadError::UnexpectedTimestamp)
    } else {
        None
    }
}

/// Indices of the mappings that the keys name, if they name each mapping exactly once.
#[verifier::loop_isolation(false)]
fn fit_keys(object: &Interface, path: &MappingPath, keys: &Vec<&str>) -> (r: Option<Vec<usize>>)
    requires
        path.wf(),
    ensures
        match r {
            Some(ix) => keys_fit(object@, path@, keys@.map_values(|k: &str| k@)) && ix@.len() == keys@.len()
                && (forall|a: int| 0 <= a < ix@.len() ==> field_index(object@, path@, keys@[a]@) == Some((#[trigger] ix@[a]) as int))
                && (forall|a: int| 0 <= a < ix@.len() ==> (#[trigger] ix@[a]) < object@.mappings.len()),
            None => !keys_fit(object@, path@, keys@.map_values(|k: &str| k@)),
        },
{
    let ghost ks = keys@.map_values(|k: &str| k@);
    if keys.len() != object.mappings_len() {
        return None;
    }
    let mut ix: Vec<usize> = Vec::new();
    let mut a: usize = 0;
    while a < keys.len()
        invariant
            path.wf(),
            ks == keys@.map_values(|k: &str| k@),
            a <= keys@.len(),
            ix@.len() == a,
            forall|c: int| 0 <= c < a ==> field_index(object@, path@, ks[c]) == Some((#[trigger] ix@[c]) as int),
            forall|c: int| 0 <= c < a ==> (#[trigger] ix@[c]) < object@.mappings.len(),
        decreases keys@.len() - a,
    {
        let mut p = String::from_str(path.as_str());
        proof { reveal_strlit("/"); }
        p.append("/");
        p.append(keys[a]);
        assert(p@ == field_path(path@, ks[a as int]));
        match MappingPath::try_from(p.as_str()) {
            Ok(mp) => match object.mapping_index(&mp) {
                Some(k) => {
                    ix.push(k);
                },
                None => {
                    assert(field_index(object@, path@, ks[a as int]) is None);
                    return None;
                },
            },
            Err(_) => {
                assert(field_index(object@, path@, ks[a as int]) is None);
                return None;
            },
        }
        a = a + 1;
    }
    let mut a: usize = 0;
    while a < ix.len()
        invariant
            ks == keys@.map_values(|k: &str| k@),
            ix@.len() == keys@.len(),
            a <= ix@.len(),
            forall|c: int| 0 <= c < ix@.len() ==> field_index(object@, path@, ks[c]) == Some((#[trigger] ix@[c]) as int),
            forall|c: int, d: int| 0 <= c < a && c < d < ix@.len() ==> #[trigger] ix@[c] != #[trigger] ix@[d],
        decreases ix@.len() - a,
    {
        let mut b: usize = a + 1;
        while b < ix.len()
            invariant
                ix@.len() == keys@.len(),
                a < ix@.len(),
                a < b <= ix@.len(),
                forall|d: int| a < d < b ==> ix@[a as int] != #[trigger] ix@[d],
            decreases ix@.len() - b,
        {
            if ix[a] == ix[b] {
                proof {
                    assert(field_index(object@, path@, ks[a as int]) == field_index(object@, path@, ks[b as int]));
                }
                return None;
            }
            b = b + 1;
        }
        a = a + 1;
    }
    proof {
        assert forall|c: int, d: int| 0 <= c < d < ks.len() implies #[trigger] field_index(object@, path@, ks[c]) != #[trigger] field_index(object@, path@, ks[d]) by {
            assert(ix@[c] != ix@[d]);
        }
        assert forall|c: int| 0 <= c < ks.len() implies (#[trigger] field_index(object@, path@, ks[c])) is Some by {
            assert(field_index(object@, path@, ks[c]) == Some(ix@[c] as int));
        }
    }
    Some(ix)
}

/// Encodes an object published on `path` of an object interface.
#[verifier::loop_isolation(false)]
pub fn serialize_object(object: &Interface, path: &MappingPath, data: &Vec<(String, AstarteType)>, timestamp: Option<i64>) -> (r: Result<Envelope, PayloadError>)
    requires
        path.wf(),
    ensures
        match object_fault(object@, path@, data_view(data@), timestamp) {
            Some(e) => r == Err::<Envelope, PayloadError>(e),
            None => r matches Ok(env) && env.t == timestamp && env.v@ == ValueView::Document(
                data_view(data@).map_values(|e: (Seq<char>, AstarteValue)| (e.0, item_of(e.1)))),
        },
{
    let ghost dv = data_view(data@);
    let mut keys: Vec<&str> = Vec::new();
    let mut a: usize = 0;
    while a < data.len()
        invariant
            a <= data@.len(),
            keys@.len() == a,
            forall|c: int| 0 <= c < a ==> (#[trigger] keys@[c])@ == data@[c].0@,
        decreases data@.len() - a,
    {
        keys.push(data[a].0.as_str());
        a = a + 1;
    }
    assert(keys@.map_values(|k: &str| k@) =~= dv.map_values(|e: (Seq<char>, AstarteValue)| e.0));
    let ix = match fit_keys(object, path, &keys) {
        Some(ix) => ix,
        None => {
            return Err(PayloadError::MissingOrExtraKey);
        },
    };
    let mut a: usize = 0;
    while a < data.len()
        invariant
            dv == data_view(data@),
            ix@.len() == data@.len(),
            a <= data@.len(),
            keys@.map_values(|k: &str| k@) == dv.map_values(|e: (Seq<char>, AstarteValue)| e.0),
            forall|c: int| 0 <= c < ix@.len() ==> field_index(object@, path@, keys@[c]@) == Some((#[trigger] ix@[c]) as int),
            forall|c: int| 0 <= c < ix@.len() ==> (#[trigger] ix@[c]) < object@.mappings.len(),
            forall|c: int| 0 <= c < a ==> value_type((#[trigger] dv[c]).1) == Some(object@.mappings[field_index(object@, path@, dv[c].0)->Some_0].mapping_type),
        decreases data@.len() - a,
    {
        proof {
            assert(keys@[a as int]@ == keys@.map_values(|k: &str| k@)[a as int]);
            assert(dv[a as int].0 == dv.map_values(|e: (Seq<char>, AstarteValue)| e.0)[a as int]);
        }
        let m = object.mapping(ix[a]);
        let ok = match data[a].1.mapping_type() {
            Some(t) => t == m.mapping_type,
            None => false,
        };
        if !ok {
            return Err(PayloadError::MismatchType);
        }
        a = a + 1;
    }
    object.ensure_valid();
    if timestamp.is_some() && !object.mapping(0).explicit_timestamp {
        return Err(PayloadError::UnexpectedTimestamp);
    }
    let mut fields: Vec<BsonField> = Vec::new();
    let mut a: usize = 0;
    while a < data.len()
        invariant
            dv == data_view(data@),
            a <= data@.len(),
            fields@.len() == a,
            forall|c: int| 0 <= c < a ==> ((#[trigger] fields@[c]).key@, fields@[c].value@) == (dv[c].0, item_of(dv[c].1)),
        decreases data@.len() - a,
    {
        fields.push(BsonField { key: data[a].0.clone(), value: encode_value(&data[a].1) });
        a = a + 1;
    }
    assert(fields_view(fields@) =~= dv.map_values(|e: (Seq<char>, AstarteValue)| (e.0, item_of(e.1))));
    Ok(Envelope { v: BsonValue::Document(fields), t: timestamp })
}

/// The type of the mapping that the field `key` names.
pub open spec fn field_type(i: InterfaceView, path: Seq<char>, key: Seq<char>) -> MappingType {
    i.mappings[field_index(i, path, key)->Some_0].mapping_type
}

/// What a received object payload decodes to.
pub open spec fn object_decoded(i: InterfaceView, path: Seq<char>, v: ValueView, t: Option<i64>) -> Result<(Seq<(Seq<char>, AstarteValue)>, Option<i64>), PayloadError> {
    match v {
        ValueView::Item(_) => Err(PayloadError::UnexpectedShape),
        ValueView::Document(f) => if !keys_fit(i, path, f.map_values(|e: (Seq<char>, ItemView)| e.0)) {
            Err(PayloadError::MissingOrExtraKey)
        } else if exists|a: int| 0 <= a < f.len() && (#[trigger] value_as(f[a].1, field_type(i, path, f[a].0))) is None {
            Err(PayloadError::MismatchType)
        } else {
            Ok((f.map_values(|e: (Seq<char>, ItemView)| (e.0, value_as(e.1, field_type(i, path, e.0))->Some_0)), t))
        },
    }
}

/// Sending an object and reading it back on the same interface and path gives the object and
/// the timestamp back.
pub proof fn lemma_object_round_trip(i: InterfaceView, path: Seq<char>, d: Seq<(Seq<char>, AstarteValue)>, ts: Option<i64>)
    requires
        object_fault(i, path, d, ts) is None,
    ensures
        object_decoded(i, path, ValueView::Document(d.map_values(|e: (Seq<char>, AstarteValue)| (e.0, item_of(e.1)))), ts)
            == Ok::<(Seq<(Seq<char>, AstarteValue)>, Option<i64>), PayloadError>((d, ts)),
{
    let f = d.map_values(|e: (Seq<char>, AstarteValue)| (e.0, item_of(e.1)));
    assert(f.map_values(|e: (Seq<char>, ItemView)| e.0) =~= d.map_values(|e: (Seq<char>, AstarteValue)| e.0));
    assert forall|a: int| 0 <= a < f.len() implies (#[trigger] value_as(f[a].1, field_type(i, path, f[a].0))) == Some(d[a].1) by {
        assert(value_type(d[a].1) == Some(field_type(i, path, d[a].0)));
        lemma_value_round_trip(d[a].1);
    }
    let back = f.map_values(|e: (Seq<char>, ItemView)| (e.0, value_as(e.1, field_type(i, path, e.0))->Some_0));
    assert(back =~= d);
}

/// Decodes an object received on `path` of an object interface.
#[verifier::loop_isolation(false)]
pub fn deserialize_object(object: &Interface, path: &MappingPath, payload: &Envelope) -> (r: Result<(Vec<(String, AstarteType)>, Option<i64>), PayloadError>)
    requires
        path.wf(),
    ensures
        match r {
            Ok((d, t)) => object_decoded(object@, path@, payload.v@, payload.t) == Ok::<(Seq<(Seq<char>, AstarteValue)>, Option<i64>), PayloadError>((data_view(d@), t)),
            Err(e) => object_decoded(object@, path@, payload.v@, payload.t) == Err::<(Seq<(Seq<char>, AstarteValue)>, Option<i64>), PayloadError>(e),
        },
{
    let fields = match &payload.v {
        BsonValue::Item(_) => {
            return Err(PayloadError::UnexpectedShape);
        },
        BsonValue::Document(f) => f,
    };
    let ghost fv = fields_view(fields@);
    let mut keys: Vec<&str> = Vec::new();
    let mut a: usize = 0;
    while a < fields.len()
        invariant
            a <= fields@.len(),
            keys@.len() == a,
            forall|c: int| 0 <= c < a ==> (#[trigger] keys@[c])@ == fields@[c].key@,
        decreases fields@.len() - a,
    {
        keys.push(fields[a].key.as_str());
        a = a + 1;
    }
    assert(keys@.map_values(|k: &str| k@) =~= fv.map_values(|e: (Seq<char>, ItemView)| e.0));
    let ix = match fit_keys(object, path, &keys) {
        Some(ix) => ix,
        None => {
            return Err(PayloadError::MissingOrExtraKey);
        },
    };
    let mut out: Vec<(String, AstarteType)> = Vec::new();
    let mut a: usize = 0;
    while a < fields.len()
        invariant
            a <= fields@.len(),
            out@.len() == a,
            forall|c: int| 0 <= c < a ==> (#[trigger] out@[c]).0@ == fv[c].0 && value_as(fv[c].1, field_type(object@, path@, fv[c].0)) == Some(out@[c].1@),
        decreases fields@.len() - a,
    {
        proof {
            assert(keys@[a as int]@ == keys@.map_values(|k: &str| k@)[a as int]);
        }
        let m = object.mapping(ix[a]);
        match decode_value(&fields[a].value, m.mapping_type) {
            Some(v) => {
                out.push((fields[a].key.clone(), v));
            },
            None => {
                assert(value_as(fv[a as int].1, field_type(object@, path@, fv[a as int].0)) is None);
                return Err(PayloadError::MismatchType);
            },
        }
        a = a + 1;
    }
    proof {
        assert forall|c: int| 0 <= c < fv.len() implies (#[trigger] value_as(fv[c].1, field_type(object@, path@, fv[c].0))) is Some by {
            assert(out@[c].0@ == fv[c].0);
        }
        assert(data_view(out@) =~= fv.map_values(|e: (Seq<char>, ItemView)| (e.0, value_as(e.1, field_type(object@, path@, e.0))->Some_0)));
    }
    Ok((out, payload.t))
}

} // verus!
