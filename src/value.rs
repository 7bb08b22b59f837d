//! Values that are returned from reading properties.
use vstd::prelude::*;

verus! {

/// A value read from a property.
///
/// Floating-point values are held as their IEEE-754 bit patterns.
#[derive(Debug)]
pub enum BACnetValue {
    Null,
    Bool(bool),
    Uint(u64),
    Int(i32),
    /// A single-precision real, as its bit pattern.
    Real(u32),
    /// A double-precision real, as its bit pattern.
    Double(u64),
    String(String),
    Bytes(Vec<u8>),
    BitString(Vec<bool>),
    /// The raw enumeration value and, where known, its name.
    Enum(u32, Option<String>),
    /// A reference to an object, used during interrogation of the device (object-list).
    ObjectId { object_type: u32, object_instance: u32 },
    /// Elements of an array property, read one at a time.
    Array(Vec<BACnetValue>),
}

/// The mathematical content of a [`BACnetValue`].
pub enum ValueModel {
    Null,
    Bool(bool),
    Uint(u64),
    Int(i32),
    Real(u32),
    Double(u64),
    String(Seq<char>),
    Bytes(Seq<u8>),
    BitString(Seq<bool>),
    Enum(u32, Option<Seq<char>>),
    ObjectId { object_type: u32, object_instance: u32 },
    Array(Seq<ValueModel>),
}

/// Why a value could not be converted.
#[derive(Debug, Clone, Copy, PartialEq, Eq, Structural)]
pub enum ValueError {
    /// The value is neither a character string nor an enumeration.
    NotText,
    /// The value is not an unsigned integer.
    NotUnsigned,
}

/// The model of an optional name.
pub open spec fn name_model(n: Option<String>) -> Option<Seq<char>> {
    match n {
        Some(s) => Some(s@),
        None => None,
    }
}

/// Decimal digit character of `d`.
pub open spec fn digit_char(d: nat) -> char {
    if d == 0 { '0' }
    else if d == 1 { '1' }
    else if d == 2 { '2' }
    else if d == 3 { '3' }
    else if d == 4 { '4' }
    else if d == 5 { '5' }
    else if d == 6 { '6' }
    else if d == 7 { '7' }
    else if d == 8 { '8' }
    else { '9' }
}

/// The decimal representation of `n`, without leading zeros.
pub open spec fn decimal_text(n: nat) -> Seq<char>
    decreases n,
{
    if n < 10 {
        seq![digit_char(n)]
    } else {
        decimal_text(n / 10).push(digit_char(n % 10))
    }
}

/// Relies on `ToString` for `u32`: integers are displayed in decimal.
#[verifier::external_body]
fn decimal_string(n: u32) -> (r: String)
    ensures
        r@ == decimal_text(n as nat),
{
    n.to_string()
}

impl BACnetValue {
    pub open spec fn model(&self) -> ValueModel
        decreases self,
    {
        match self {
            BACnetValue::Null => ValueModel::Null,
            BACnetValue::Bool(b) => ValueModel::Bool(*b),
            BACnetValue::Uint(u) => ValueModel::Uint(*u),
            BACnetValue::Int(i) => ValueModel::Int(*i),
            BACnetValue::Real(r) => ValueModel::Real(*r),
            BACnetValue::Double(d) => ValueModel::Double(*d),
            BACnetValue::String(s) => ValueModel::String(s@),
            BACnetValue::Bytes(b) => ValueModel::Bytes(b@),
            BACnetValue::BitString(b) => ValueModel::BitString(b@),
            BACnetValue::Enum(raw, name) => ValueModel::Enum(*raw, name_model(*name)),
            BACnetValue::ObjectId { object_type, object_instance } => ValueModel::ObjectId {
                object_type: *object_type,
                object_instance: *object_instance,
            },
            BACnetValue::Array(items) => ValueModel::Array(
                Seq::new(
                    items@.len(),
                    |i: int|
                        if 0 <= i < items@.len() {
                            items@[i].model()
                        } else {
                            ValueModel::Null
                        },
                ),
            ),
        }
    }

    /// The text of a value: a character string, the name of an enumeration, or the decimal
    /// form of an enumeration without a name.
    pub open spec fn text_of(m: ValueModel) -> Option<Seq<char>> {
        match m {
            ValueModel::String(s) => Some(s),
            ValueModel::Enum(_, Some(s)) => Some(s),
            ValueModel::Enum(i, None) => Some(decimal_text(i as nat)),
            _ => None,
        }
    }

    /// Turn the value into text.
    pub fn try_into_string(self) -> (r: Result<String, ValueError>)
        ensures
            match Self::text_of(self.model()) {
                Some(t) => r matches Ok(s) && s@ == t,
                None => r == Err::<String, ValueError>(ValueError::NotText),
            },
    {
        match self {
            BACnetValue::String(s) => Ok(s),
            BACnetValue::Enum(_, Some(s)) => Ok(s),
            BACnetValue::Enum(i, None) => Ok(decimal_string(i)),
            _ => Err(ValueError::NotText),
        }
    }

    /// Turn the value into an unsigned integer.
    pub fn try_into_u64(self) -> (r: Result<u64, ValueError>)
        ensures
            match self.model() {
                ValueModel::Uint(u) => r == Ok::<u64, ValueError>(u),
                _ => r == Err::<u64, ValueError>(ValueError::NotUnsigned),
            },
    {
        match self {
            BACnetValue::Uint(u) => Ok(u),
            _ => Err(ValueError::NotUnsigned),
        }
    }
}

} // verus!
