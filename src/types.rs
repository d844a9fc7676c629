//! Astarte values and their types.
use vstd::prelude::*;
use vstd::std_specs::cmp::PartialEqSpec;

verus! {

/// A value that can be sent to or received from Astarte.
///
/// A double is held as the bit pattern of an IEEE-754 binary64, a date-time as the number of
/// milliseconds since the Unix epoch (UTC), which is the precision of the wire envelope.
#[derive(Debug)]
pub enum AstarteType {
    Double(u64),
    Integer(i32),
    Boolean(bool),
    LongInteger(i64),
    String(String),
    BinaryBlob(Vec<u8>),
    DateTime(i64),
    DoubleArray(Vec<u64>),
    IntegerArray(Vec<i32>),
    BooleanArray(Vec<bool>),
    LongIntegerArray(Vec<i64>),
    StringArray(Vec<String>),
    BinaryBlobArray(Vec<Vec<u8>>),
    DateTimeArray(Vec<i64>),
    Unset,
}

/// The mathematical content of an [`AstarteType`].
pub enum AstarteValue {
    Double(u64),
    Integer(i32),
    Boolean(bool),
    LongInteger(i64),
    String(Seq<char>),
    BinaryBlob(Seq<u8>),
    DateTime(i64),
    DoubleArray(Seq<u64>),
    IntegerArray(Seq<i32>),
    BooleanArray(Seq<bool>),
    LongIntegerArray(Seq<i64>),
    StringArray(Seq<Seq<char>>),
    BinaryBlobArray(Seq<Seq<u8>>),
    DateTimeArray(Seq<i64>),
    Unset,
}

/// The type declared by a mapping.
#[derive(Debug, Clone, Copy, PartialEq, Eq, Structural)]
pub enum MappingType {
    Double,
    Integer,
    Boolean,
    LongInteger,
    String,
    BinaryBlob,
    DateTime,
    DoubleArray,
    IntegerArray,
    BooleanArray,
    LongIntegerArray,
    StringArray,
    BinaryBlobArray,
    DateTimeArray,
}

/// Error of a conversion into an [`AstarteType`].
#[derive(Debug, Clone, Copy, PartialEq, Eq, Structural)]
pub enum TypeError {
    /// The host value does not fit the requested Astarte type.
    Conversion,
}

pub open spec fn strings_view(v: Seq<String>) -> Seq<Seq<char>> {
    v.map_values(|s: String| s@)
}

pub open spec fn blobs_view(v: Seq<Vec<u8>>) -> Seq<Seq<u8>> {
    v.map_values(|b: Vec<u8>| b@)
}

impl View for AstarteType {
    type V = AstarteValue;

    open spec fn view(&self) -> AstarteValue {
        match self {
            AstarteType::Double(d) => AstarteValue::Double(*d),
            AstarteType::Integer(i) => AstarteValue::Integer(*i),
            AstarteType::Boolean(b) => AstarteValue::Boolean(*b),
            AstarteType::LongInteger(i) => AstarteValue::LongInteger(*i),
            AstarteType::String(s) => AstarteValue::String(s@),
            AstarteType::BinaryBlob(b) => AstarteValue::BinaryBlob(b@),
            AstarteType::DateTime(t) => AstarteValue::DateTime(*t),
            AstarteType::DoubleArray(v) => AstarteValue::DoubleArray(v@),
            AstarteType::IntegerArray(v) => AstarteValue::IntegerArray(v@),
            AstarteType::BooleanArray(v) => AstarteValue::BooleanArray(v@),
            AstarteType::LongIntegerArray(v) => AstarteValue::LongIntegerArray(v@),
            AstarteType::StringArray(v) => AstarteValue::StringArray(strings_view(v@)),
            AstarteType::BinaryBlobArray(v) => AstarteValue::BinaryBlobArray(blobs_view(v@)),
            AstarteType::DateTimeArray(v) => AstarteValue::DateTimeArray(v@),
            AstarteType::Unset => AstarteValue::Unset,
        }
    }
}

/// The type of a value; `None` for `Unset`, which has no type of its own.
pub open spec fn value_type(v: AstarteValue) -> Option<MappingType> {
    match v {
        AstarteValue::Double(_) => Some(MappingType::Double),
        AstarteValue::Integer(_) => Some(MappingType::Integer),
        AstarteValue::Boolean(_) => Some(MappingType::Boolean),
        AstarteValue::LongInteger(_) => Some(MappingType::LongInteger),
        AstarteValue::String(_) => Some(MappingType::String),
        AstarteValue::BinaryBlob(_) => Some(MappingType::BinaryBlob),
        AstarteValue::DateTime(_) => Some(MappingType::DateTime),
        AstarteValue::DoubleArray(_) => Some(MappingType::DoubleArray),
        AstarteValue::IntegerArray(_) => Some(MappingType::IntegerArray),
        AstarteValue::BooleanArray(_) => Some(MappingType::BooleanArray),
        AstarteValue::LongIntegerArray(_) => Some(MappingType::LongIntegerArray),
        AstarteValue::StringArray(_) => Some(MappingType::StringArray),
        AstarteValue::BinaryBlobArray(_) => Some(MappingType::BinaryBlobArray),
        AstarteValue::DateTimeArray(_) => Some(MappingType::DateTimeArray),
        AstarteValue::Unset => None,
    }
}

/// A binary64 bit pattern is finite when its exponent field is not all ones.
pub open spec fn finite_double_bits(bits: u64) -> bool {
    (bits >> 52u64) & 0x7ffu64 != 0x7ffu64
}

/// Copies a vector of plain values.
pub fn copy_vec<T: Copy>(v: &Vec<T>) -> (r: Vec<T>)
    ensures
        r@ == v@,
{
    let mut r: Vec<T> = Vec::new();
    let mut i: usize = 0;
    while i < v.len()
        invariant
            i <= v.len(),
            r@ == v@.subrange(0, i as int),
        decreases v.len() - i,
    {
        r.push(v[i]);
        i = i + 1;
        assert(r@ =~= v@.subrange(0, i as int));
    }
    assert(r@ =~= v@);
    r
}

/// Whether two vectors of plain values hold the same elements.
pub fn same_vec<T: PartialEq + Copy>(a: &Vec<T>, b: &Vec<T>) -> (r: bool)
    requires
        vstd::laws_eq::obeys_concrete_eq::<T>(),
    ensures
        r == (a@ == b@),
{
    proof {
        reveal(vstd::laws_eq::obeys_concrete_eq);
    }
    if a.len() != b.len() {
        return false;
    }
    let mut i: usize = 0;
    while i < a.len()
        invariant
            i <= a.len(),
            a.len() == b.len(),
            vstd::laws_eq::obeys_concrete_eq::<T>(),
            T::obeys_eq_spec(),
            forall|x: T, y: T| (x.eq_spec(&y)) <==> (x == y),
            forall|j: int| 0 <= j < i ==> a@[j] == b@[j],
        decreases a.len() - i,
    {
        if !(a[i] == b[i]) {
            return false;
        }
        i = i + 1;
    }
    assert(a@ =~= b@);
    true
}

fn copy_strings(v: &Vec<String>) -> (r: Vec<String>)
    ensures
        strings_view(r@) == strings_view(v@),
{
    let mut r: Vec<String> = Vec::new();
    let mut i: usize = 0;
    while i < v.len()
        invariant
            i <= v.len(),
            r@.len() == i,
            forall|j: int| 0 <= j < i ==> r@[j]@ == v@[j]@,
        decreases v.len() - i,
    {
        r.push(v[i].clone());
        i = i + 1;
    }
    assert(strings_view(r@) =~= strings_view(v@));
    r
}

fn copy_blobs(v: &Vec<Vec<u8>>) -> (r: Vec<Vec<u8>>)
    ensures
        blobs_view(r@) == blobs_view(v@),
{
    let mut r: Vec<Vec<u8>> = Vec::new();
    let mut i: usize = 0;
    while i < v.len()
        invariant
            i <= v.len(),
            r@.len() == i,
            forall|j: int| 0 <= j < i ==> r@[j]@ == v@[j]@,
        decreases v.len() - i,
    {
        r.push(copy_vec(&v[i]));
        i = i + 1;
    }
    assert(blobs_view(r@) =~= blobs_view(v@));
    r
}

fn same_strings(a: &Vec<String>, b: &Vec<String>) -> (r: bool)
    ensures
        r == (strings_view(a@) == strings_view(b@)),
{
    if a.len() != b.len() {
        assert(strings_view(a@).len() != strings_view(b@).len());
        return false;
    }
    let mut i: usize = 0;
    while i < a.len()
        invariant
            i <= a.len(),
            a.len() == b.len(),
            forall|j: int| 0 <= j < i ==> a@[j]@ == b@[j]@,
        decreases a.len() - i,
    {
        if a[i] != b[i] {
            assert(strings_view(a@)[i as int] != strings_view(b@)[i as int]);
            return false;
        }
        i = i + 1;
    }
    assert(strings_view(a@) =~= strings_view(b@));
    true
}

fn same_blobs(a: &Vec<Vec<u8>>, b: &Vec<Vec<u8>>) -> (r: bool)
    ensures
        r == (blobs_view(a@) == blobs_view(b@)),
{
    broadcast use vstd::laws_eq::group_laws_eq;

    if a.len() != b.len() {
        assert(blobs_view(a@).len() != blobs_view(b@).len());
        return false;
    }
    let mut i: usize = 0;
    while i < a.len()
        invariant
            i <= a.len(),
            a.len() == b.len(),
            forall|j: int| 0 <= j < i ==> a@[j]@ == b@[j]@,
        decreases a.len() - i,
    {
        if !same_vec(&a[i], &b[i]) {
            assert(blobs_view(a@)[i as int] != blobs_view(b@)[i as int]);
            return false;
        }
        i = i + 1;
    }
    assert(blobs_view(a@) =~= blobs_view(b@));
    true
}

impl Clone for AstarteType {
    fn clone(&self) -> (r: Self)
        ensures
            r@ == self@,
    {
        match self {
            AstarteType::Double(d) => AstarteType::Double(*d),
            AstarteType::Integer(i) => AstarteType::Integer(*i),
            AstarteType::Boolean(b) => AstarteType::Boolean(*b),
            AstarteType::LongInteger(i) => AstarteType::LongInteger(*i),
            AstarteType::String(s) => AstarteType::String(s.clone()),
            AstarteType::BinaryBlob(b) => AstarteType::BinaryBlob(copy_vec(b)),
            AstarteType::DateTime(t) => AstarteType::DateTime(*t),
            AstarteType::DoubleArray(v) => AstarteType::DoubleArray(copy_vec(v)),
            AstarteType::IntegerArray(v) => AstarteType::IntegerArray(copy_vec(v)),
            AstarteType::BooleanArray(v) => AstarteType::BooleanArray(copy_vec(v)),
            AstarteType::LongIntegerArray(v) => AstarteType::LongIntegerArray(copy_vec(v)),
            AstarteType::StringArray(v) => AstarteType::StringArray(copy_strings(v)),
            AstarteType::BinaryBlobArray(v) => AstarteType::BinaryBlobArray(copy_blobs(v)),
            AstarteType::DateTimeArray(v) => AstarteType::DateTimeArray(copy_vec(v)),
            AstarteType::Unset => AstarteType::Unset,
        }
    }
}

impl PartialEq for AstarteType {
    /// Structural, value-typed equality: blobs compare byte by byte, date-times as instants.
    fn eq(&self, other: &AstarteType) -> (r: bool) {
        broadcast use vstd::laws_eq::group_laws_eq;

        match (self, other) {
            (AstarteType::Double(a), AstarteType::Double(b)) => *a == *b,
            (AstarteType::Integer(a), AstarteType::Integer(b)) => *a == *b,
            (AstarteType::Boolean(a), AstarteType::Boolean(b)) => *a == *b,
            (AstarteType::LongInteger(a), AstarteType::LongInteger(b)) => *a == *b,
            (AstarteType::String(a), AstarteType::String(b)) => *a == *b,
            (AstarteType::BinaryBlob(a), AstarteType::BinaryBlob(b)) => same_vec(a, b),
            (AstarteType::DateTime(a), AstarteType::DateTime(b)) => *a == *b,
            (AstarteType::DoubleArray(a), AstarteType::DoubleArray(b)) => same_vec(a, b),
            (AstarteType::IntegerArray(a), AstarteType::IntegerArray(b)) => same_vec(a, b),
            (AstarteType::BooleanArray(a), AstarteType::BooleanArray(b)) => same_vec(a, b),
            (AstarteType::LongIntegerArray(a), AstarteType::LongIntegerArray(b)) => same_vec(a, b),
            (AstarteType::StringArray(a), AstarteType::StringArray(b)) => same_strings(a, b),
            (AstarteType::BinaryBlobArray(a), AstarteType::BinaryBlobArray(b)) => same_blobs(a, b),
            (AstarteType::DateTimeArray(a), AstarteType::DateTimeArray(b)) => same_vec(a, b),
            (AstarteType::Unset, AstarteType::Unset) => true,
            _ => false,
        }
    }
}

impl vstd::std_specs::cmp::PartialEqSpecImpl for AstarteType {
    open spec fn obeys_eq_spec() -> bool {
        true
    }

    open spec fn eq_spec(&self, other: &AstarteType) -> bool {
        self@ == other@
    }
}

impl AstarteType {
    /// The type of this value; `None` for `Unset`.
    pub fn mapping_type(&self) -> (r: Option<MappingType>)
        ensures
            r == value_type(self@),
    {
        match self {
            AstarteType::Double(_) => Some(MappingType::Double),
            AstarteType::Integer(_) => Some(MappingType::Integer),
            AstarteType::Boolean(_) => Some(MappingType::Boolean),
            AstarteType::LongInteger(_) => Some(MappingType::LongInteger),
            AstarteType::String(_) => Some(MappingType::String),
            AstarteType::BinaryBlob(_) => Some(MappingType::BinaryBlob),
            AstarteType::DateTime(_) => Some(MappingType::DateTime),
            AstarteType::DoubleArray(_) => Some(MappingType::DoubleArray),
            AstarteType::IntegerArray(_) => Some(MappingType::IntegerArray),
            AstarteType::BooleanArray(_) => Some(MappingType::BooleanArray),
            AstarteType::LongIntegerArray(_) => Some(MappingType::LongIntegerArray),
            AstarteType::StringArray(_) => Some(MappingType::StringArray),
            AstarteType::BinaryBlobArray(_) => Some(MappingType::BinaryBlobArray),
            AstarteType::DateTimeArray(_) => Some(MappingType::DateTimeArray),
            AstarteType::Unset => None,
        }
    }

    /// Whether this is the `Unset` value.
    pub fn is_unset(&self) -> (r: bool)
        ensures
            r == (self@ is Unset),
    {
        match self {
            AstarteType::Unset => true,
            _ => false,
        }
    }

    /// A double from the bit pattern of a binary64; fails on infinities and NaN.
    pub fn try_from_double_bits(bits: u64) -> (r: Result<AstarteType, TypeError>)
        ensures
            finite_double_bits(bits) ==> (r matches Ok(v) && v@ == AstarteValue::Double(bits)),
            !finite_double_bits(bits) ==> r == Err::<AstarteType, TypeError>(TypeError::Conversion),
    {
        if (bits >> 52u64) & 0x7ffu64 != 0x7ffu64 {
            Ok(AstarteType::Double(bits))
        } else {
            Err(TypeError::Conversion)
        }
    }

    /// An array of doubles from binary64 bit patterns; fails if any of them is not finite.
    pub fn try_from_double_bits_array(bits: &Vec<u64>) -> (r: Result<AstarteType, TypeError>)
        ensures
            (forall|i: int| 0 <= i < bits@.len() ==> finite_double_bits(#[trigger] bits@[i]))
                ==> (r matches Ok(v) && v@ == AstarteValue::DoubleArray(bits@)),
            !(forall|i: int| 0 <= i < bits@.len() ==> finite_double_bits(#[trigger] bits@[i]))
                ==> r == Err::<AstarteType, TypeError>(TypeError::Conversion),
    {
        let mut i: usize = 0;
        while i < bits.len()
            invariant
                i <= bits.len(),
                forall|j: int| 0 <= j < i ==> finite_double_bits(#[trigger] bits@[j]),
            decreases bits.len() - i,
        {
            if (bits[i] >> 52u64) & 0x7ffu64 == 0x7ffu64 {
                return Err(TypeError::Conversion);
            }
            i = i + 1;
        }
        Ok(AstarteType::DoubleArray(copy_vec(bits)))
    }
}

impl From<i32> for AstarteType {
    fn from(v: i32) -> (r: AstarteType)
        ensures
            r@ == AstarteValue::Integer(v),
    {
        AstarteType::Integer(v)
    }
}

impl vstd::std_specs::convert::FromSpecImpl<i32> for AstarteType {
    open spec fn obeys_from_spec() -> bool {
        true
    }

    open spec fn from_spec(v: i32) -> AstarteType {
        AstarteType::Integer(v)
    }
}

impl From<i64> for AstarteType {
    fn from(v: i64) -> (r: AstarteType)
        ensures
            r@ == AstarteValue::LongInteger(v),
    {
        AstarteType::LongInteger(v)
    }
}

impl vstd::std_specs::convert::FromSpecImpl<i64> for AstarteType {
    open spec fn obeys_from_spec() -> bool {
        true
    }

    open spec fn from_spec(v: i64) -> AstarteType {
        AstarteType::LongInteger(v)
    }
}

impl From<bool> for AstarteType {
    fn from(v: bool) -> (r: AstarteType)
        ensures
            r@ == AstarteValue::Boolean(v),
    {
        AstarteType::Boolean(v)
    }
}

impl vstd::std_specs::convert::FromSpecImpl<bool> for AstarteType {
    open spec fn obeys_from_spec() -> bool {
        true
    }

    open spec fn from_spec(v: bool) -> AstarteType {
        AstarteType::Boolean(v)
    }
}

impl From<u32> for AstarteType {
    /// A `u32` always fits a long integer.
    fn from(v: u32) -> (r: AstarteType)
        ensures
            r@ == AstarteValue::LongInteger(v as i64),
    {
        AstarteType::LongInteger(v as i64)
    }
}

impl vstd::std_specs::convert::FromSpecImpl<u32> for AstarteType {
    open spec fn obeys_from_spec() -> bool {
        true
    }

    open spec fn from_spec(v: u32) -> AstarteType {
        AstarteType::LongInteger(v as i64)
    }
}

impl AstarteType {
    /// A long integer from a `u64`; fails when it does not fit an `i64`.
    pub fn try_from_u64(v: u64) -> (r: Result<AstarteType, TypeError>)
        ensures
            v <= i64::MAX ==> (r matches Ok(x) && x@ == AstarteValue::LongInteger(v as i64)),
            v > i64::MAX ==> r == Err::<AstarteType, TypeError>(TypeError::Conversion),
    {
        if v <= i64::MAX as u64 {
            Ok(AstarteType::LongInteger(v as i64))
        } else {
            Err(TypeError::Conversion)
        }
    }
}

} // verus!
