//! Application-tagged values: the tag header, and the mapping from tag to [`BACnetValue`].
use vstd::prelude::*;
use vstd::utf8::{valid_utf8, decode_utf8, encode_utf8};
use crate::value::{BACnetValue, ValueModel, name_model};

verus! {

pub const TAG_NULL: u8 = 0;
pub const TAG_BOOLEAN: u8 = 1;
pub const TAG_UNSIGNED_INT: u8 = 2;
pub const TAG_SIGNED_INT: u8 = 3;
pub const TAG_REAL: u8 = 4;
pub const TAG_DOUBLE: u8 = 5;
pub const TAG_OCTET_STRING: u8 = 6;
pub const TAG_CHARACTER_STRING: u8 = 7;
pub const TAG_BIT_STRING: u8 = 8;
pub const TAG_ENUMERATED: u8 = 9;
pub const TAG_OBJECT_ID: u8 = 12;

/// Property whose enumerated values are engineering units.
pub const PROP_UNITS: u32 = 117;
/// Property whose enumerated value is an object type.
pub const PROP_OBJECT_TYPE: u32 = 79;
pub const PROP_PRESENT_VALUE: u32 = 85;
pub const PROP_RELINQUISH_DEFAULT: u32 = 104;

/// Engineering units at or above this value have no standard name.
pub const MAX_UNITS: u32 = 256;
/// Object types at or above this value are reserved or proprietary.
pub const MAX_ASHRAE_OBJECT_TYPE: u32 = 60;
/// The first proprietary object type.
pub const OBJECT_PROPRIETARY_MIN: u32 = 128;

/// Number of instance bits in an object identifier.
pub const INSTANCE_MODULUS: u32 = 0x40_0000;
/// Object types fit in the ten bits above the instance.
pub const OBJECT_TYPE_LIMIT: u32 = 1024;

/// Why a buffer did not decode to a value.
#[derive(Debug, Clone, Copy, PartialEq, Eq, Structural)]
pub enum DecodeError {
    /// The buffer ends before the tag or its content does.
    Truncated,
    /// The tag is a context tag, or an opening or closing tag.
    NotApplicationTag,
    /// The content length is not allowed for the tag.
    InvalidLength { tag: u8, len: u32 },
    /// The unused-bit count of a bit string is out of range.
    InvalidBitString,
    /// The tag names a type that is not decoded.
    UnsupportedTag { tag: u8 },
}

/// The header of an application tag.
#[derive(Debug, Clone, Copy, PartialEq, Eq, Structural)]
pub struct TagHeader {
    /// The tag number.
    pub tag: u8,
    /// The length of the content; for a boolean, its value.
    pub len: u32,
    /// Offset of the content in the buffer.
    pub start: usize,
}

/// Names of enumerated values, one table per context.
pub struct EnumNames {
    /// Engineering units, indexed by their value.
    pub units: Vec<String>,
    /// Object types, indexed by their value.
    pub object_types: Vec<String>,
    /// States of binary present values, indexed by their value.
    pub binary_states: Vec<String>,
}

/// The name at index `raw` of a table, if it has one.
pub open spec fn table_name(t: Seq<String>, raw: u32) -> Option<Seq<char>> {
    if (raw as int) < t.len() {
        Some(t[raw as int]@)
    } else {
        None
    }
}

impl EnumNames {
    /// The name of an enumerated value read from `property` of an object of `object_type`.
    /// Only engineering units, object types and binary present values are named, and
    /// only inside their standard ranges.
    pub open spec fn name_of(&self, property: u32, object_type: u32, raw: u32) -> Option<Seq<char>> {
        if property == PROP_UNITS {
            if raw < MAX_UNITS {
                table_name(self.units@, raw)
            } else {
                None
            }
        } else if property == PROP_OBJECT_TYPE {
            if raw < MAX_ASHRAE_OBJECT_TYPE {
                table_name(self.object_types@, raw)
            } else {
                None
            }
        } else if property == PROP_PRESENT_VALUE || property == PROP_RELINQUISH_DEFAULT {
            if object_type < OBJECT_PROPRIETARY_MIN {
                table_name(self.binary_states@, raw)
            } else {
                None
            }
        } else {
            None
        }
    }
}

/// The entry at index `raw` of a table, if it has one.
fn table_lookup(t: &Vec<String>, raw: u32) -> (r: Option<String>)
    ensures
        name_model(r) == table_name(t@, raw),
{
    if (raw as usize) < t.len() {
        Some(t[raw as usize].clone())
    } else {
        None
    }
}

impl EnumNames {
    /// Look up the name of an enumerated value read from `property` of an object of
    /// `object_type`.
    pub fn name_for(&self, property: u32, object_type: u32, raw: u32) -> (r: Option<String>)
        ensures
            name_model(r) == self.name_of(property, object_type, raw),
    {
        if property == PROP_UNITS {
            if raw < MAX_UNITS {
                table_lookup(&self.units, raw)
            } else {
                None
            }
        } else if property == PROP_OBJECT_TYPE {
            if raw < MAX_ASHRAE_OBJECT_TYPE {
                table_lookup(&self.object_types, raw)
            } else {
                None
            }
        } else if property == PROP_PRESENT_VALUE || property == PROP_RELINQUISH_DEFAULT {
            if object_type < OBJECT_PROPRIETARY_MIN {
                table_lookup(&self.binary_states, raw)
            } else {
                None
            }
        } else {
            None
        }
    }
}

/// Name for what `String::from_utf8_lossy` makes of a byte sequence.
pub uninterp spec fn lossy_utf8(b: Seq<u8>) -> Seq<char>;

/// Relies on `String::from_utf8_lossy`: invalid sequences are replaced, valid UTF-8 is kept.
#[verifier::external_body]
fn text_from_utf8(b: &[u8]) -> (r: String)
    ensures
        r@ == lossy_utf8(b@),
        valid_utf8(b@) ==> r@ == decode_utf8(b@),
{
    String::from_utf8_lossy(b).into_owned()
}

/// Text read from bytes: valid UTF-8 is decoded, anything else is repaired.
pub open spec fn text_spec(b: Seq<u8>) -> Seq<char> {
    if valid_utf8(b) {
        decode_utf8(b)
    } else {
        lossy_utf8(b)
    }
}

pub open spec fn pow256(n: nat) -> nat
    decreases n,
{
    if n == 0 {
        1
    } else {
        256 * pow256((n - 1) as nat)
    }
}

/// The unsigned big-endian number that the bytes spell.
pub open spec fn be_uint(s: Seq<u8>) -> nat
    decreases s.len(),
{
    if s.len() == 0 {
        0
    } else {
        be_uint(s.drop_last()) * 256 + s.last() as nat
    }
}

/// The two's complement big-endian number that the bytes spell.
pub open spec fn be_int(s: Seq<u8>) -> int {
    if be_uint(s) * 2 >= pow256(s.len()) {
        be_uint(s) - pow256(s.len())
    } else {
        be_uint(s) as int
    }
}

/// The header of the application tag at the start of `b`.
pub open spec fn header_spec(b: Seq<u8>) -> Result<TagHeader, DecodeError> {
    if b.len() < 1 {
        Err(DecodeError::Truncated)
    } else if (b[0] / 8) % 2 == 1 {
        Err(DecodeError::NotApplicationTag)
    } else if b[0] / 16 == 15 && b.len() < 2 {
        Err(DecodeError::Truncated)
    } else {
        let tag: u8 = if b[0] / 16 == 15 { b[1] } else { (b[0] / 16) as u8 };
        let i: int = if b[0] / 16 == 15 { 2 } else { 1 };
        let lvt = b[0] % 8;
        if lvt < 5 {
            Ok(TagHeader { tag, len: lvt as u32, start: i as usize })
        } else if lvt > 5 {
            Err(DecodeError::NotApplicationTag)
        } else if b.len() < i + 1 {
            Err(DecodeError::Truncated)
        } else if b[i] < 254 {
            Ok(TagHeader { tag, len: b[i] as u32, start: (i + 1) as usize })
        } else if b[i] == 254 {
            if b.len() < i + 3 {
                Err(DecodeError::Truncated)
            } else {
                Ok(TagHeader { tag, len: be_uint(b.subrange(i + 1, i + 3)) as u32, start: (i + 3) as usize })
            }
        } else if b.len() < i + 5 {
            Err(DecodeError::Truncated)
        } else {
            Ok(TagHeader { tag, len: be_uint(b.subrange(i + 1, i + 5)) as u32, start: (i + 5) as usize })
        }
    }
}

/// Bit `i` of a bit string's content: the first octet counts the unused bits, and the
/// bits follow, most significant first.
pub open spec fn bit_at(c: Seq<u8>, i: int) -> bool {
    (c[1 + i / 8] >> ((7 - i % 8) as u8)) & 1u8 == 1u8
}

/// The value that the content `c` of an application tag spells.
pub open spec fn content_spec(
    tag: u8,
    len: u32,
    c: Seq<u8>,
    names: EnumNames,
    property: u32,
    object_type: u32,
) -> Result<ValueModel, DecodeError> {
    if tag == TAG_NULL {
        Ok(ValueModel::Null)
    } else if tag == TAG_BOOLEAN {
        Ok(ValueModel::Bool(len != 0))
    } else if tag == TAG_UNSIGNED_INT {
        if 1 <= len <= 8 {
            Ok(ValueModel::Uint(be_uint(c) as u64))
        } else {
            Err(DecodeError::InvalidLength { tag, len })
        }
    } else if tag == TAG_SIGNED_INT {
        if 1 <= len <= 4 {
            Ok(ValueModel::Int(be_int(c) as i32))
        } else {
            Err(DecodeError::InvalidLength { tag, len })
        }
    } else if tag == TAG_REAL {
        if len == 4 {
            Ok(ValueModel::Real(be_uint(c) as u32))
        } else {
            Err(DecodeError::InvalidLength { tag, len })
        }
    } else if tag == TAG_DOUBLE {
        if len == 8 {
            Ok(ValueModel::Double(be_uint(c) as u64))
        } else {
            Err(DecodeError::InvalidLength { tag, len })
        }
    } else if tag == TAG_CHARACTER_STRING {
        if len >= 1 {
            Ok(ValueModel::String(text_spec(c.subrange(1, len as int))))
        } else {
            Err(DecodeError::InvalidLength { tag, len })
        }
    } else if tag == TAG_BIT_STRING {
        if len >= 1 && c[0] <= 7 && (len > 1 || c[0] == 0) {
            Ok(ValueModel::BitString(Seq::new(((len - 1) * 8 - c[0]) as nat, |i: int| bit_at(c, i))))
        } else {
            Err(DecodeError::InvalidBitString)
        }
    } else if tag == TAG_ENUMERATED {
        if 1 <= len <= 4 {
            Ok(ValueModel::Enum(be_uint(c) as u32, names.name_of(property, object_type, be_uint(c) as u32)))
        } else {
            Err(DecodeError::InvalidLength { tag, len })
        }
    } else if tag == TAG_OBJECT_ID {
        if len == 4 {
            Ok(ValueModel::ObjectId {
                object_type: (be_uint(c) / INSTANCE_MODULUS as nat) as u32,
                object_instance: (be_uint(c) % INSTANCE_MODULUS as nat) as u32,
            })
        } else {
            Err(DecodeError::InvalidLength { tag, len })
        }
    } else {
        Err(DecodeError::UnsupportedTag { tag })
    }
}

/// The value that the application tag at the start of `b` spells.
pub open spec fn decode_spec(b: Seq<u8>, names: EnumNames, property: u32, object_type: u32) -> Result<ValueModel, DecodeError> {
    match header_spec(b) {
        Err(e) => Err(e),
        Ok(h) => {
            if h.tag != TAG_BOOLEAN && h.start + h.len > b.len() {
                Err(DecodeError::Truncated)
            } else {
                content_spec(
                    h.tag,
                    h.len,
                    if h.tag == TAG_BOOLEAN { Seq::empty() } else { b.subrange(h.start as int, h.start + h.len) },
                    names,
                    property,
                    object_type,
                )
            }
        }
    }
}

/// The model of a decoding result.
pub open spec fn result_model(r: Result<BACnetValue, DecodeError>) -> Result<ValueModel, DecodeError> {
    match r {
        Ok(v) => Ok(v.model()),
        Err(e) => Err(e),
    }
}

pub proof fn lemma_be_uint_bound(s: Seq<u8>)
    ensures
        be_uint(s) < pow256(s.len()),
    decreases s.len(),
{
    if s.len() > 0 {
        lemma_be_uint_bound(s.drop_last());
        let a = be_uint(s.drop_last());
        let p = pow256(s.drop_last().len());
        let x = s.last() as nat;
        assert(a * 256 + x < 256 * p) by (nonlinear_arith)
            requires a < p, x < 256;
    }
}

/// Read the unsigned big-endian number in `b[start..start + n]`.
fn read_be(b: &[u8], start: usize, n: usize) -> (r: u64)
    requires
        n <= 8,
        start + n <= b@.len(),
    ensures
        r == be_uint(b@.subrange(start as int, start + n)),
{
    let mut acc: u64 = 0;
    let mut i: usize = 0;
    let total = b.len();
    while i < n
        invariant
            total == b@.len(),
            n <= 8,
            start + n <= b@.len(),
            i <= n,
            acc == be_uint(b@.subrange(start as int, start + i)),
        decreases n - i,
    {
        proof {
            let s = b@.subrange(start as int, start + i + 1);
            assert(s.drop_last() =~= b@.subrange(start as int, start + i));
            lemma_be_uint_bound(b@.subrange(start as int, start + i));
            lemma_pow256_le(i as nat, 7);
            lemma_pow256_8();
            assert(acc * 256 + 255 <= 0xffff_ffff_ffff_ffff) by (nonlinear_arith)
                requires acc < pow256(i as nat), pow256(i as nat) <= pow256(7), pow256(7) * 256 == 0x1_0000_0000_0000_0000nat;
        }
        acc = acc * 256 + b[start + i] as u64;
        i = i + 1;
    }
    acc
}

pub proof fn lemma_pow256_pos(n: nat)
    ensures
        pow256(n) > 0,
    decreases n,
{
    if n > 0 {
        lemma_pow256_pos((n - 1) as nat);
    }
}

pub proof fn lemma_pow256_le(a: nat, b: nat)
    requires
        a <= b,
    ensures
        pow256(a) <= pow256(b),
    decreases b,
{
    if a < b {
        lemma_pow256_le(a, (b - 1) as nat);
    }
}

pub proof fn lemma_pow256_8()
    ensures
        pow256(1) == 0x100,
        pow256(2) == 0x1_0000,
        pow256(3) == 0x100_0000,
        pow256(4) == 0x1_0000_0000,
        pow256(7) * 256 == 0x1_0000_0000_0000_0000nat,
        pow256(8) == 0x1_0000_0000_0000_0000nat,
{
    reveal_with_fuel(pow256, 9);
}

/// Read the header of the application tag at the start of `b`.
pub fn read_tag(b: &[u8]) -> (r: Result<TagHeader, DecodeError>)
    ensures
        r == header_spec(b@),
        r matches Ok(h) ==> h.start <= b@.len(),
{
    if b.len() < 1 {
        return Err(DecodeError::Truncated);
    }
    let first = b[0];
    if (first / 8) % 2 == 1 {
        return Err(DecodeError::NotApplicationTag);
    }
    if first / 16 == 15 && b.len() < 2 {
        return Err(DecodeError::Truncated);
    }
    let tag: u8 = if first / 16 == 15 { b[1] } else { first / 16 };
    let i: usize = if first / 16 == 15 { 2 } else { 1 };
    let lvt = first % 8;
    if lvt < 5 {
        Ok(TagHeader { tag, len: lvt as u32, start: i })
    } else if lvt > 5 {
        Err(DecodeError::NotApplicationTag)
    } else if b.len() < i + 1 {
        Err(DecodeError::Truncated)
    } else if b[i] < 254 {
        Ok(TagHeader { tag, len: b[i] as u32, start: i + 1 })
    } else if b[i] == 254 {
        if b.len() < i + 3 {
            Err(DecodeError::Truncated)
        } else {
            let v = read_be(b, i + 1, 2);
            proof {
                lemma_be_uint_bound(b@.subrange(i + 1, i + 3));
                lemma_pow256_8();
            }
            Ok(TagHeader { tag, len: v as u32, start: i + 3 })
        }
    } else if b.len() < i + 5 {
        Err(DecodeError::Truncated)
    } else {
        let v = read_be(b, i + 1, 4);
        proof {
            lemma_be_uint_bound(b@.subrange(i + 1, i + 5));
            lemma_pow256_8();
        }
        Ok(TagHeader { tag, len: v as u32, start: i + 5 })
    }
}

/// Decode the content `c` of an application tag.
fn decode_content(
    tag: u8,
    len: u32,
    c: &[u8],
    names: &EnumNames,
    property: u32,
    object_type: u32,
) -> (r: Result<BACnetValue, DecodeError>)
    requires
        tag != TAG_BOOLEAN,
        c@.len() == len,
    ensures
        result_model(r) == content_spec(tag, len, c@, *names, property, object_type),
{
    let n = len as usize;
    proof {
        assert(c@.subrange(0, len as int) =~= c@);
        lemma_pow256_8();
    }
    if tag == TAG_NULL {
        Ok(BACnetValue::Null)
    } else if tag == TAG_UNSIGNED_INT {
        if 1 <= len && len <= 8 {
            Ok(BACnetValue::Uint(read_be(c, 0, n)))
        } else {
            Err(DecodeError::InvalidLength { tag, len })
        }
    } else if tag == TAG_SIGNED_INT {
        if 1 <= len && len <= 4 {
            let u = read_be(c, 0, n);
            let p: u64 = if n == 1 {
                0x100
            } else if n == 2 {
                0x1_0000
            } else if n == 3 {
                0x100_0000
            } else {
                0x1_0000_0000
            };
            proof {
                lemma_be_uint_bound(c@);
            }
            let v: i32 = if u * 2 >= p {
                (u as i64 - p as i64) as i32
            } else {
                u as i32
            };
            Ok(BACnetValue::Int(v))
        } else {
            Err(DecodeError::InvalidLength { tag, len })
        }
    } else if tag == TAG_REAL {
        if len == 4 {
            proof {
                lemma_be_uint_bound(c@);
            }
            Ok(BACnetValue::Real(read_be(c, 0, 4) as u32))
        } else {
            Err(DecodeError::InvalidLength { tag, len })
        }
    } else if tag == TAG_DOUBLE {
        if len == 8 {
            Ok(BACnetValue::Double(read_be(c, 0, 8)))
        } else {
            Err(DecodeError::InvalidLength { tag, len })
        }
    } else if tag == TAG_CHARACTER_STRING {
        if len >= 1 {
            // The first octet names the character set; the text is read as UTF-8.
            Ok(BACnetValue::String(text_from_utf8(&c[1..n])))
        } else {
            Err(DecodeError::InvalidLength { tag, len })
        }
    } else if tag == TAG_BIT_STRING {
        if len >= 1 && c[0] <= 7 && (len > 1 || c[0] == 0) {
            let count: u64 = (len as u64 - 1) * 8 - c[0] as u64;
            let mut bits: Vec<bool> = Vec::new();
            let mut i: u64 = 0;
            while i < count
                invariant
                    c@.len() == len,
                    n == len,
                    len >= 1,
                    count == (len - 1) * 8 - c@[0],
                    i <= count,
                    bits@ == Seq::new(i as nat, |k: int| bit_at(c@, k)),
                decreases count - i,
            {
                let octet = c[(1 + i / 8) as usize];
                let shift = (7 - i % 8) as u8;
                bits.push((octet >> shift) & 1u8 == 1u8);
                i = i + 1;
                assert(bits@ =~= Seq::new(i as nat, |k: int| bit_at(c@, k)));
            }
            Ok(BACnetValue::BitString(bits))
        } else {
            Err(DecodeError::InvalidBitString)
        }
    } else if tag == TAG_ENUMERATED {
        if 1 <= len && len <= 4 {
            proof {
                lemma_be_uint_bound(c@);
            }
            let raw = read_be(c, 0, n) as u32;
            Ok(BACnetValue::Enum(raw, names.name_for(property, object_type, raw)))
        } else {
            Err(DecodeError::InvalidLength { tag, len })
        }
    } else if tag == TAG_OBJECT_ID {
        if len == 4 {
            proof {
                lemma_be_uint_bound(c@);
            }
            let v = read_be(c, 0, 4) as u32;
            Ok(BACnetValue::ObjectId {
                object_type: v / INSTANCE_MODULUS,
                object_instance: v % INSTANCE_MODULUS,
            })
        } else {
            Err(DecodeError::InvalidLength { tag, len })
        }
    } else {
        Err(DecodeError::UnsupportedTag { tag })
    }
}

/// Decode the application-tagged value at the start of `buffer`.
///
/// `property` and `object_type` say where the value was read from: they decide whether an
/// enumerated value is given a name from `names`.
pub fn decode(buffer: &[u8], names: &EnumNames, property: u32, object_type: u32) -> (r: Result<
    BACnetValue,
    DecodeError,
>)
    ensures
        result_model(r) == decode_spec(buffer@, *names, property, object_type),
{
    let h = match read_tag(buffer) {
        Ok(h) => h,
        Err(e) => return Err(e),
    };
    if h.tag == TAG_BOOLEAN {
        return Ok(BACnetValue::Bool(h.len != 0));
    }
    if h.len as usize > buffer.len() - h.start {
        return Err(DecodeError::Truncated);
    }
    let end = h.start + h.len as usize;
    decode_content(h.tag, h.len, &buffer[h.start..end], names, property, object_type)
}

/// `n` bytes spelling `v` modulo `256^n`, most significant first.
pub open spec fn be_bytes(v: nat, n: nat) -> Seq<u8>
    decreases n,
{
    if n == 0 {
        Seq::empty()
    } else {
        be_bytes(v / 256, (n - 1) as nat).push((v % 256) as u8)
    }
}

/// The smallest width from `n` up, at most 8, in which `v` fits unsigned.
pub open spec fn uint_width_from(v: nat, n: nat) -> nat
    decreases 8 - n,
{
    if n >= 8 || v < pow256(n) {
        n
    } else {
        uint_width_from(v, n + 1)
    }
}

/// The smallest width from `n` up, at most 4, in which `i` fits in two's complement.
pub open spec fn int_width_from(i: int, n: nat) -> nat
    decreases 4 - n,
{
    if n >= 4 || (-i <= pow256(n) / 2 && i < pow256(n) / 2) {
        n
    } else {
        int_width_from(i, n + 1)
    }
}

/// The two's complement form of `i` in `n` bytes.
pub open spec fn twos_complement(i: int, n: nat) -> nat {
    if i < 0 {
        (i + pow256(n)) as nat
    } else {
        i as nat
    }
}

/// The header of an application tag numbered `tag` (below 15) with content of length `n`.
pub open spec fn header_bytes(tag: u8, n: nat) -> Seq<u8> {
    if n <= 4 {
        seq![(tag * 16 + n) as u8]
    } else if n <= 253 {
        seq![(tag * 16 + 5) as u8, n as u8]
    } else if n <= 0xffff {
        seq![(tag * 16 + 5) as u8, 254u8] + be_bytes(n, 2)
    } else {
        seq![(tag * 16 + 5) as u8, 255u8] + be_bytes(n, 4)
    }
}

pub open spec fn tagged(tag: u8, content: Seq<u8>) -> Seq<u8> {
    header_bytes(tag, content.len()) + content
}

/// `1` where bit `i` of `b` is set, else `0`.
pub open spec fn bit_in(b: Seq<bool>, i: int) -> u8 {
    if 0 <= i < b.len() && b[i] {
        1
    } else {
        0
    }
}

/// An octet from eight bits (each `0` or `1`), most significant first.
pub open spec fn octet8(c0: u8, c1: u8, c2: u8, c3: u8, c4: u8, c5: u8, c6: u8, c7: u8) -> u8 {
    (c0 << 7u8) | (c1 << 6u8) | (c2 << 5u8) | (c3 << 4u8) | (c4 << 3u8) | (c5 << 2u8) | (c6 << 1u8) | c7
}

/// Octet `j` of the packed bits of `b`.
#[verifier::opaque]
pub open spec fn packed_octet(b: Seq<bool>, j: int) -> u8 {
    octet8(
        bit_in(b, 8 * j),
        bit_in(b, 8 * j + 1),
        bit_in(b, 8 * j + 2),
        bit_in(b, 8 * j + 3),
        bit_in(b, 8 * j + 4),
        bit_in(b, 8 * j + 5),
        bit_in(b, 8 * j + 6),
        bit_in(b, 8 * j + 7),
    )
}

/// The content of a bit string: the unused-bit count, then the bits packed into octets.
pub open spec fn bit_string_content(b: Seq<bool>) -> Seq<u8> {
    let octets = (b.len() + 7) / 8;
    seq![(octets * 8 - b.len()) as u8] + Seq::new(octets as nat, |j: int| packed_octet(b, j))
}

/// Whether a value has a wire encoding: arrays and octet strings are not encoded, and
/// everything else must fit its fields.
pub open spec fn encodable(m: ValueModel) -> bool {
    match m {
        ValueModel::String(s) => encode_utf8(s).len() + 1 <= u32::MAX,
        ValueModel::BitString(b) => b.len() + 8 <= u32::MAX,
        ValueModel::ObjectId { object_type, object_instance } => object_type < OBJECT_TYPE_LIMIT
            && object_instance < INSTANCE_MODULUS,
        ValueModel::Bytes(_) => false,
        ValueModel::Array(_) => false,
        _ => true,
    }
}

/// The wire encoding of a value.
pub open spec fn encode_spec(m: ValueModel) -> Seq<u8> {
    match m {
        ValueModel::Null => seq![0u8],
        ValueModel::Bool(b) => seq![if b { 0x11u8 } else { 0x10u8 }],
        ValueModel::Uint(u) => tagged(TAG_UNSIGNED_INT, be_bytes(u as nat, uint_width_from(u as nat, 1))),
        ValueModel::Int(i) => tagged(
            TAG_SIGNED_INT,
            be_bytes(twos_complement(i as int, int_width_from(i as int, 1)), int_width_from(i as int, 1)),
        ),
        ValueModel::Real(r) => tagged(TAG_REAL, be_bytes(r as nat, 4)),
        ValueModel::Double(d) => tagged(TAG_DOUBLE, be_bytes(d as nat, 8)),
        ValueModel::String(s) => tagged(TAG_CHARACTER_STRING, seq![0u8] + encode_utf8(s)),
        ValueModel::BitString(b) => tagged(TAG_BIT_STRING, bit_string_content(b)),
        ValueModel::Enum(raw, _) => tagged(TAG_ENUMERATED, be_bytes(raw as nat, uint_width_from(raw as nat, 1))),
        ValueModel::ObjectId { object_type, object_instance } => tagged(
            TAG_OBJECT_ID,
            be_bytes(object_type as nat * INSTANCE_MODULUS as nat + object_instance as nat, 4),
        ),
        _ => Seq::empty(),
    }
}

pub proof fn lemma_be_bytes_len(v: nat, n: nat)
    ensures
        be_bytes(v, n).len() == n,
    decreases n,
{
    if n > 0 {
        lemma_be_bytes_len(v / 256, (n - 1) as nat);
    }
}

pub proof fn lemma_be_uint_be_bytes(v: nat, n: nat)
    ensures
        be_uint(be_bytes(v, n)) == v % pow256(n),
    decreases n,
{
    if n > 0 {
        lemma_be_uint_be_bytes(v / 256, (n - 1) as nat);
        let s = be_bytes(v, n);
        assert(s.drop_last() =~= be_bytes(v / 256, (n - 1) as nat));
        lemma_pow256_pos((n - 1) as nat);
        vstd::arithmetic::div_mod::lemma_mod_breakdown(v as int, 256, pow256((n - 1) as nat) as int);
        assert(pow256(n) == 256 * pow256((n - 1) as nat));
    } else {
        assert(v % 1 == 0);
    }
}

pub proof fn lemma_int_width(i: int, n: nat)
    requires
        -0x8000_0000 <= i < 0x8000_0000,
        1 <= n <= 4,
    ensures
        n <= int_width_from(i, n) <= 4,
        -i <= pow256(int_width_from(i, n)) / 2,
        i < pow256(int_width_from(i, n)) / 2,
    decreases 4 - n,
{
    lemma_pow256_8();
    if n < 4 && !(-i <= pow256(n) / 2 && i < pow256(n) / 2) {
        lemma_int_width(i, n + 1);
    }
}

pub proof fn lemma_uint_width(v: nat, n: nat)
    requires
        v < pow256(8),
        1 <= n <= 8,
    ensures
        n <= uint_width_from(v, n) <= 8,
        v < pow256(uint_width_from(v, n)),
    decreases 8 - n,
{
    if n < 8 && v >= pow256(n) {
        lemma_uint_width(v, n + 1);
    }
}

pub proof fn lemma_uint_width_le(v: nat, n: nat, k: nat)
    requires
        v < pow256(k),
        1 <= n <= k,
    ensures
        uint_width_from(v, n) <= k,
    decreases 8 - n,
{
    if n < 8 && v >= pow256(n) {
        lemma_uint_width_le(v, n + 1, k);
    }
}

/// Append `be_bytes(v, n)` to `out`.
fn push_be(out: &mut Vec<u8>, v: u64, n: usize)
    requires
        n <= 8,
    ensures
        final(out)@ == old(out)@ + be_bytes(v as nat, n as nat),
        final(out)@.len() == old(out)@.len() + n,
{
    proof {
        lemma_be_bytes_len(v as nat, n as nat);
    }
    let mut tmp: Vec<u8> = Vec::new();
    let mut k: usize = 0;
    while k < n
        invariant
            k <= n,
            tmp@.len() == k,
            forall|j: int| 0 <= j < k ==> tmp@[j] == 0,
        decreases n - k,
    {
        tmp.push(0);
        k = k + 1;
    }
    let mut t: u64 = v;
    let mut k: usize = n;
    while k > 0
        invariant
            k <= n,
            tmp@.len() == n,
            be_bytes(v as nat, n as nat) == be_bytes(t as nat, k as nat) + tmp@.subrange(k as int, n as int),
        decreases k,
    {
        let ghost before = tmp@;
        tmp.set(k - 1, (t % 256) as u8);
        proof {
            assert(be_bytes(t as nat, k as nat) == be_bytes(t as nat / 256, (k - 1) as nat).push((t as nat % 256) as u8));
            assert(be_bytes(t as nat, k as nat) + before.subrange(k as int, n as int) =~= be_bytes(
                (t / 256) as nat,
                (k - 1) as nat,
            ) + tmp@.subrange(k - 1, n as int));
        }
        t = t / 256;
        k = k - 1;
    }
    assert(tmp@.subrange(0, n as int) =~= tmp@);
    let mut j: usize = 0;
    let ghost start = out@;
    while j < n
        invariant
            j <= n,
            tmp@.len() == n,
            be_bytes(v as nat, n as nat) == tmp@,
            out@ == start + tmp@.subrange(0, j as int),
        decreases n - j,
    {
        out.push(tmp[j]);
        j = j + 1;
        assert(out@ =~= start + tmp@.subrange(0, j as int));
    }
}

/// Append the header of an application tag numbered `tag` with content of length `n`.
fn push_header(out: &mut Vec<u8>, tag: u8, n: usize)
    requires
        tag < 15,
        n <= u32::MAX,
    ensures
        final(out)@ == old(out)@ + header_bytes(tag, n as nat),
{
    let ghost start = out@;
    if n <= 4 {
        out.push(tag * 16 + n as u8);
        assert(out@ =~= start + header_bytes(tag, n as nat));
    } else if n <= 253 {
        out.push(tag * 16 + 5);
        out.push(n as u8);
        assert(out@ =~= start + header_bytes(tag, n as nat));
    } else if n <= 0xffff {
        out.push(tag * 16 + 5);
        out.push(254);
        push_be(out, n as u64, 2);
        assert(out@ =~= start + header_bytes(tag, n as nat));
    } else {
        out.push(tag * 16 + 5);
        out.push(255);
        push_be(out, n as u64, 4);
        assert(out@ =~= start + header_bytes(tag, n as nat));
    }
}

/// The smallest width in which `v` fits unsigned.
fn uint_width(v: u64) -> (w: usize)
    ensures
        w == uint_width_from(v as nat, 1),
        1 <= w <= 8,
{
    let mut w: usize = 1;
    let mut p: u128 = 256;
    proof {
        lemma_pow256_8();
    }
    while w < 8 && v as u128 >= p
        invariant
            1 <= w <= 8,
            p == pow256(w as nat),
            uint_width_from(v as nat, 1) == uint_width_from(v as nat, w as nat),
        decreases 8 - w,
    {
        proof {
            lemma_pow256_le(w as nat, 7);
            assert(p * 256 <= pow256(7) * 256) by (nonlinear_arith)
                requires p <= pow256(7);
        }
        p = p * 256;
        w = w + 1;
    }
    w
}

/// The smallest width in which `i` fits in two's complement.
fn int_width(i: i32) -> (w: usize)
    ensures
        w == int_width_from(i as int, 1),
        1 <= w <= 4,
{
    let mut w: usize = 1;
    let mut half: i64 = 128;
    proof {
        lemma_pow256_8();
    }
    while w < 4 && !(-(i as i64) <= half && (i as i64) < half)
        invariant
            1 <= w <= 4,
            half * 2 == pow256(w as nat),
            int_width_from(i as int, 1) == int_width_from(i as int, w as nat),
        decreases 4 - w,
    {
        proof {
            lemma_pow256_le(w as nat, 3);
        }
        half = half * 256;
        w = w + 1;
    }
    w
}

/// The packed octet `j` of `bits`.
fn pack_octet(bits: &Vec<bool>, j: usize) -> (r: u8)
    requires
        8 * j + 8 <= usize::MAX,
    ensures
        r == packed_octet(bits@, j as int),
{
    reveal(packed_octet);
    let mut c: [u8; 8] = [0u8; 8];
    let mut k: usize = 0;
    while k < 8
        invariant
            8 * j + 8 <= usize::MAX,
            k <= 8,
            forall|q: int| 0 <= q < k ==> c@[q] == bit_in(bits@, 8 * j + q),
        decreases 8 - k,
    {
        let idx = 8 * j + k;
        c[k] = if idx < bits.len() && bits[idx] { 1 } else { 0 };
        k = k + 1;
    }
    (c[0] << 7u8) | (c[1] << 6u8) | (c[2] << 5u8) | (c[3] << 4u8) | (c[4] << 3u8) | (c[5] << 2u8) | (c[6] << 1u8) | c[7]
}

/// Encode a value as an application tag.
///
/// Gives `None` for values that have no encoding (see [`encodable`]).
pub fn encode(v: &BACnetValue) -> (r: Option<Vec<u8>>)
    ensures
        encodable(v.model()) <==> r is Some,
        r matches Some(b) ==> b@ == encode_spec(v.model()),
{
    let mut out: Vec<u8> = Vec::new();
    let mut content: Vec<u8> = Vec::new();
    let tag: u8;
    match v {
        BACnetValue::Null => {
            out.push(0);
            assert(out@ =~= encode_spec(v.model()));
            return Some(out);
        },
        BACnetValue::Bool(b) => {
            out.push(if *b { 0x11 } else { 0x10 });
            assert(out@ =~= encode_spec(v.model()));
            return Some(out);
        },
        BACnetValue::Uint(u) => {
            tag = TAG_UNSIGNED_INT;
            let w = uint_width(*u);
            push_be(&mut content, *u, w);
        },
        BACnetValue::Int(i) => {
            tag = TAG_SIGNED_INT;
            let w = int_width(*i);
            proof {
                lemma_pow256_8();
                lemma_int_width(*i as int, 1);
            }
            let p: i64 = if w == 1 {
                0x100
            } else if w == 2 {
                0x1_0000
            } else if w == 3 {
                0x100_0000
            } else {
                0x1_0000_0000
            };
            let u: u64 = if *i < 0 {
                (*i as i64 + p) as u64
            } else {
                *i as u64
            };
            push_be(&mut content, u, w);
        },
        BACnetValue::Real(r) => {
            tag = TAG_REAL;
            push_be(&mut content, *r as u64, 4);
        },
        BACnetValue::Double(d) => {
            tag = TAG_DOUBLE;
            push_be(&mut content, *d, 8);
        },
        BACnetValue::String(s) => {
            tag = TAG_CHARACTER_STRING;
            let bytes = s.as_str().as_bytes();
            if bytes.len() >= 0xffff_ffff {
                return None;
            }
            content.push(0);
            let mut j: usize = 0;
            while j < bytes.len()
                invariant
                    j <= bytes@.len(),
                    content@ == seq![0u8] + bytes@.subrange(0, j as int),
                decreases bytes@.len() - j,
            {
                content.push(bytes[j]);
                j = j + 1;
                assert(content@ =~= seq![0u8] + bytes@.subrange(0, j as int));
            }
            assert(bytes@.subrange(0, j as int) =~= bytes@);
        },
        BACnetValue::BitString(bits) => {
            tag = TAG_BIT_STRING;
            if bits.len() > 0xffff_ffff - 8 {
                return None;
            }
            let octets: usize = (bits.len() + 7) / 8;
            content.push((octets * 8 - bits.len()) as u8);
            let mut j: usize = 0;
            while j < octets
                invariant
                    bits@.len() + 8 <= u32::MAX,
                    octets == (bits@.len() + 7) / 8,
                    j <= octets,
                    content@ == seq![(octets * 8 - bits@.len()) as u8] + Seq::new(j as nat, |q: int| packed_octet(bits@, q)),
                decreases octets - j,
            {
                content.push(pack_octet(bits, j));
                j = j + 1;
                assert(content@ =~= seq![(octets * 8 - bits@.len()) as u8] + Seq::new(j as nat, |q: int| packed_octet(bits@, q)));
            }
        },
        BACnetValue::Enum(raw, _) => {
            tag = TAG_ENUMERATED;
            let w = uint_width(*raw as u64);
            push_be(&mut content, *raw as u64, w);
        },
        BACnetValue::ObjectId { object_type, object_instance } => {
            tag = TAG_OBJECT_ID;
            if *object_type >= OBJECT_TYPE_LIMIT || *object_instance >= INSTANCE_MODULUS {
                return None;
            }
            push_be(&mut content, *object_type as u64 * INSTANCE_MODULUS as u64 + *object_instance as u64, 4);
        },
        BACnetValue::Bytes(_) => {
            return None;
        },
        BACnetValue::Array(_) => {
            return None;
        },
    }
    push_header(&mut out, tag, content.len());
    let ghost head = out@;
    let mut j: usize = 0;
    while j < content.len()
        invariant
            j <= content@.len(),
            out@ == head + content@.subrange(0, j as int),
        decreases content@.len() - j,
    {
        out.push(content[j]);
        j = j + 1;
        assert(out@ =~= head + content@.subrange(0, j as int));
    }
    assert(content@.subrange(0, j as int) =~= content@);
    Some(out)
}

proof fn lemma_octet_bits(x: u8, c0: u8, c1: u8, c2: u8, c3: u8, c4: u8, c5: u8, c6: u8, c7: u8)
    by (bit_vector)
    requires
        x == (c0 << 7u8) | (c1 << 6u8) | (c2 << 5u8) | (c3 << 4u8) | (c4 << 3u8) | (c5 << 2u8) | (c6 << 1u8) | c7,
        c0 <= 1,
        c1 <= 1,
        c2 <= 1,
        c3 <= 1,
        c4 <= 1,
        c5 <= 1,
        c6 <= 1,
        c7 <= 1,
    ensures
        (x >> 7u8) & 1u8 == c0,
        (x >> 6u8) & 1u8 == c1,
        (x >> 5u8) & 1u8 == c2,
        (x >> 4u8) & 1u8 == c3,
        (x >> 3u8) & 1u8 == c4,
        (x >> 2u8) & 1u8 == c5,
        (x >> 1u8) & 1u8 == c6,
        (x >> 0u8) & 1u8 == c7,
{
}

/// Each bit of a packed bit string reads back as it was.
proof fn lemma_bit_string_bits(b: Seq<bool>, i: int)
    requires
        0 <= i < b.len(),
    ensures
        bit_at(bit_string_content(b), i) == b[i],
{
    let c = bit_string_content(b);
    let j = i / 8;
    let k = i % 8;
    assert(8 * j + k == i);
    let octets = (b.len() + 7) / 8;
    assert(j < octets);
    assert(c[1 + j] == packed_octet(b, j));
    reveal(packed_octet);
    lemma_octet_bits(
        packed_octet(b, j),
        bit_in(b, 8 * j),
        bit_in(b, 8 * j + 1),
        bit_in(b, 8 * j + 2),
        bit_in(b, 8 * j + 3),
        bit_in(b, 8 * j + 4),
        bit_in(b, 8 * j + 5),
        bit_in(b, 8 * j + 6),
        bit_in(b, 8 * j + 7),
    );
    assert(bit_in(b, i) == 1 <==> b[i]);
    assert(k == 0 || k == 1 || k == 2 || k == 3 || k == 4 || k == 5 || k == 6 || k == 7);
}

/// The header of a tag built by `tagged` reads back, and its content follows it.
proof fn lemma_tagged(tag: u8, content: Seq<u8>)
    requires
        tag < 15,
        content.len() <= u32::MAX,
    ensures
        header_spec(tagged(tag, content)) == Ok::<TagHeader, DecodeError>(
            TagHeader { tag, len: content.len() as u32, start: header_bytes(tag, content.len()).len() as usize },
        ),
        header_bytes(tag, content.len()).len() <= 6,
        tagged(tag, content).subrange(
            header_bytes(tag, content.len()).len() as int,
            (header_bytes(tag, content.len()).len() + content.len()) as int,
        ) == content,
{
    let n = content.len();
    let h = header_bytes(tag, n);
    let b = tagged(tag, content);
    lemma_be_bytes_len(n, 2);
    lemma_be_bytes_len(n, 4);
    lemma_pow256_8();
    assert(b.subrange(h.len() as int, (h.len() + n) as int) =~= content);
    assert(b[0] == h[0]);
    if n <= 4 {
        assert(((tag * 16 + n) as u8) / 8 % 2 == 0 && ((tag * 16 + n) as u8) / 16 == tag && ((tag * 16 + n) as u8) % 8 == n) by (nonlinear_arith)
            requires tag < 15, n <= 4;
    } else {
        assert(((tag * 16 + 5) as u8) / 8 % 2 == 0 && ((tag * 16 + 5) as u8) / 16 == tag && ((tag * 16 + 5) as u8) % 8 == 5) by (nonlinear_arith)
            requires tag < 15;
        assert(b[1] == h[1]);
        if n > 253 && n <= 0xffff {
            assert(b.subrange(2, 4) =~= be_bytes(n, 2));
            lemma_be_uint_be_bytes(n, 2);
        } else if n > 0xffff {
            assert(b.subrange(2, 6) =~= be_bytes(n, 4));
            lemma_be_uint_be_bytes(n, 4);
        }
    }
}

/// An unsigned number of `w` bytes reads back, for a width it fits in.
proof fn lemma_be_round(v: nat, w: nat)
    requires
        v < pow256(w),
    ensures
        be_bytes(v, w).len() == w,
        be_uint(be_bytes(v, w)) == v,
{
    lemma_be_bytes_len(v, w);
    lemma_be_uint_be_bytes(v, w);
    vstd::arithmetic::div_mod::lemma_small_mod(v, pow256(w));
}

proof fn lemma_decode_encode_uint(u: u64, names: EnumNames, property: u32, object_type: u32)
    ensures
        decode_spec(encode_spec(ValueModel::Uint(u)), names, property, object_type) == Ok::<
            ValueModel,
            DecodeError,
        >(ValueModel::Uint(u)),
{
    lemma_pow256_8();
    let w = uint_width_from(u as nat, 1);
    lemma_uint_width(u as nat, 1);
    lemma_be_round(u as nat, w);
    lemma_tagged(TAG_UNSIGNED_INT, be_bytes(u as nat, w));
}

proof fn lemma_decode_encode_int(i: i32, names: EnumNames, property: u32, object_type: u32)
    ensures
        decode_spec(encode_spec(ValueModel::Int(i)), names, property, object_type) == Ok::<
            ValueModel,
            DecodeError,
        >(ValueModel::Int(i)),
{
    lemma_pow256_8();
    let w = int_width_from(i as int, 1);
    lemma_int_width(i as int, 1);
    let t = twos_complement(i as int, w);
    lemma_pow256_le(w, 4);
    lemma_pow256_pos(w);
    lemma_be_round(t, w);
    lemma_tagged(TAG_SIGNED_INT, be_bytes(t, w));
    assert(be_int(be_bytes(t, w)) == i as int);
}

proof fn lemma_decode_encode_enum(raw: u32, names: EnumNames, property: u32, object_type: u32)
    ensures
        decode_spec(encode_spec(ValueModel::Enum(raw, names.name_of(property, object_type, raw))), names, property, object_type)
            == Ok::<ValueModel, DecodeError>(ValueModel::Enum(raw, names.name_of(property, object_type, raw))),
{
    lemma_pow256_8();
    let w = uint_width_from(raw as nat, 1);
    lemma_uint_width(raw as nat, 1);
    lemma_uint_width_le(raw as nat, 1, 4);
    lemma_be_round(raw as nat, w);
    let c = be_bytes(raw as nat, w);
    lemma_tagged(TAG_ENUMERATED, c);
    let h = TagHeader { tag: TAG_ENUMERATED, len: w as u32, start: header_bytes(TAG_ENUMERATED, w).len() as usize };
    assert(header_spec(encode_spec(ValueModel::Enum(raw, names.name_of(property, object_type, raw)))) == Ok::<TagHeader, DecodeError>(h));
    assert(content_spec(TAG_ENUMERATED, w as u32, c, names, property, object_type) == Ok::<ValueModel, DecodeError>(
        ValueModel::Enum(raw, names.name_of(property, object_type, raw)),
    ));
}

proof fn lemma_decode_encode_fixed(m: ValueModel, names: EnumNames, property: u32, object_type: u32)
    requires
        m is Real || m is Double || m is Null || m is Bool,
    ensures
        decode_spec(encode_spec(m), names, property, object_type) == Ok::<ValueModel, DecodeError>(m),
{
    lemma_pow256_8();
    match m {
        ValueModel::Null => {
            assert(encode_spec(m).subrange(1, 1) =~= Seq::<u8>::empty());
        },
        ValueModel::Real(r) => {
            lemma_be_round(r as nat, 4);
            lemma_tagged(TAG_REAL, be_bytes(r as nat, 4));
        },
        ValueModel::Double(d) => {
            lemma_be_round(d as nat, 8);
            lemma_tagged(TAG_DOUBLE, be_bytes(d as nat, 8));
        },
        _ => {},
    }
}

proof fn lemma_decode_encode_string(s: Seq<char>, names: EnumNames, property: u32, object_type: u32)
    requires
        encode_utf8(s).len() + 1 <= u32::MAX,
    ensures
        decode_spec(encode_spec(ValueModel::String(s)), names, property, object_type) == Ok::<
            ValueModel,
            DecodeError,
        >(ValueModel::String(s)),
{
    let c = seq![0u8] + encode_utf8(s);
    lemma_tagged(TAG_CHARACTER_STRING, c);
    assert(c.subrange(1, c.len() as int) =~= encode_utf8(s));
    vstd::utf8::encode_utf8_valid_utf8(s);
    vstd::utf8::encode_utf8_decode_utf8(s);
    assert(text_spec(c.subrange(1, c.len() as int)) == s);
    let h = TagHeader { tag: TAG_CHARACTER_STRING, len: c.len() as u32, start: header_bytes(TAG_CHARACTER_STRING, c.len()).len() as usize };
    assert(encode_spec(ValueModel::String(s)) == tagged(TAG_CHARACTER_STRING, c));
    assert(header_spec(encode_spec(ValueModel::String(s))) == Ok::<TagHeader, DecodeError>(h));
    assert(encode_spec(ValueModel::String(s)).subrange(h.start as int, h.start + h.len) == c);
    assert(decode_spec(encode_spec(ValueModel::String(s)), names, property, object_type) == content_spec(
        TAG_CHARACTER_STRING, c.len() as u32, c, names, property, object_type));
    assert(content_spec(TAG_CHARACTER_STRING, c.len() as u32, c, names, property, object_type) == Ok::<ValueModel, DecodeError>(
        ValueModel::String(s),
    ));
}

proof fn lemma_decode_encode_bits(b: Seq<bool>, names: EnumNames, property: u32, object_type: u32)
    requires
        b.len() + 8 <= u32::MAX,
    ensures
        decode_spec(encode_spec(ValueModel::BitString(b)), names, property, object_type) == Ok::<
            ValueModel,
            DecodeError,
        >(ValueModel::BitString(b)),
{
    let c = bit_string_content(b);
    lemma_tagged(TAG_BIT_STRING, c);
    lemma_bit_string_reads_back(b, names, property, object_type);
    let h = TagHeader { tag: TAG_BIT_STRING, len: c.len() as u32, start: header_bytes(TAG_BIT_STRING, c.len()).len() as usize };
    assert(encode_spec(ValueModel::BitString(b)) == tagged(TAG_BIT_STRING, c));
    assert(header_spec(encode_spec(ValueModel::BitString(b))) == Ok::<TagHeader, DecodeError>(h));
    assert(encode_spec(ValueModel::BitString(b)).subrange(h.start as int, h.start + h.len) == c);
    assert(decode_spec(encode_spec(ValueModel::BitString(b)), names, property, object_type) == content_spec(
        TAG_BIT_STRING, c.len() as u32, c, names, property, object_type));
}

/// The packed form of a bit string is valid and reads back as the same bits.
proof fn lemma_bit_string_reads_back(b: Seq<bool>, names: EnumNames, property: u32, object_type: u32)
    requires
        b.len() + 8 <= u32::MAX,
    ensures
        content_spec(
            TAG_BIT_STRING,
            bit_string_content(b).len() as u32,
            bit_string_content(b),
            names,
            property,
            object_type,
        ) == Ok::<ValueModel, DecodeError>(ValueModel::BitString(b)),
{
    let c = bit_string_content(b);
    let bits = Seq::new(((c.len() - 1) * 8 - c[0]) as nat, |i: int| bit_at(c, i));
    assert forall|i: int| 0 <= i < b.len() implies bits[i] == b[i] by {
        lemma_bit_string_bits(b, i);
    }
    assert(bits =~= b);
}

proof fn lemma_decode_encode_object_id(t: u32, i: u32, names: EnumNames, property: u32, object_type: u32)
    requires
        t < OBJECT_TYPE_LIMIT,
        i < INSTANCE_MODULUS,
    ensures
        decode_spec(
            encode_spec(ValueModel::ObjectId { object_type: t, object_instance: i }),
            names,
            property,
            object_type,
        ) == Ok::<ValueModel, DecodeError>(ValueModel::ObjectId { object_type: t, object_instance: i }),
{
    lemma_pow256_8();
    let v = t as nat * INSTANCE_MODULUS as nat + i as nat;
    assert(v < pow256(4)) by (nonlinear_arith)
        requires t < 1024, i < 0x40_0000, v == t as nat * 0x40_0000 + i as nat, pow256(4) == 0x1_0000_0000;
    lemma_be_round(v, 4);
    lemma_tagged(TAG_OBJECT_ID, be_bytes(v, 4));
    vstd::arithmetic::div_mod::lemma_fundamental_div_mod_converse(v as int, INSTANCE_MODULUS as int, t as int, i as int);
}

/// Decoding the encoding of a value gives the value back, for every value that has an
/// encoding. An enumerated value comes back with the name that the context gives it, so
/// its name must be that one.
pub proof fn lemma_decode_encode(m: ValueModel, names: EnumNames, property: u32, object_type: u32)
    requires
        encodable(m),
        m matches ValueModel::Enum(raw, name) ==> name == names.name_of(property, object_type, raw),
    ensures
        decode_spec(encode_spec(m), names, property, object_type) == Ok::<ValueModel, DecodeError>(m),
{
    match m {
        ValueModel::Uint(u) => lemma_decode_encode_uint(u, names, property, object_type),
        ValueModel::Int(i) => lemma_decode_encode_int(i, names, property, object_type),
        ValueModel::String(s) => lemma_decode_encode_string(s, names, property, object_type),
        ValueModel::BitString(b) => lemma_decode_encode_bits(b, names, property, object_type),
        ValueModel::Enum(raw, _) => lemma_decode_encode_enum(raw, names, property, object_type),
        ValueModel::ObjectId { object_type: t, object_instance: i } => lemma_decode_encode_object_id(
            t,
            i,
            names,
            property,
            object_type,
        ),
        _ => lemma_decode_encode_fixed(m, names, property, object_type),
    }
}

/// A bit string decodes to exactly as many bits as it declares: eight for each octet after
/// the first, less the unused-bit count that the first octet holds. The count is not rounded
/// to whole octets, and a bit string with no octets after the first is empty.
pub proof fn lemma_bit_string_count(b: Seq<u8>, names: EnumNames, property: u32, object_type: u32)
    requires
        header_spec(b) is Ok,
        header_spec(b)->Ok_0.tag == TAG_BIT_STRING,
        header_spec(b)->Ok_0.start + header_spec(b)->Ok_0.len <= b.len(),
        header_spec(b)->Ok_0.len >= 1,
        b[header_spec(b)->Ok_0.start as int] <= 7,
        header_spec(b)->Ok_0.len == 1 ==> b[header_spec(b)->Ok_0.start as int] == 0,
    ensures
        decode_spec(b, names, property, object_type) matches Ok(ValueModel::BitString(bits))
            && bits.len() == (header_spec(b)->Ok_0.len - 1) * 8 - b[header_spec(b)->Ok_0.start as int],
        header_spec(b)->Ok_0.len == 1 ==> decode_spec(b, names, property, object_type) == Ok::<
            ValueModel,
            DecodeError,
        >(ValueModel::BitString(Seq::empty())),
{
    let h = header_spec(b)->Ok_0;
    let c = b.subrange(h.start as int, h.start + h.len);
    assert(c[0] == b[h.start as int]);
    if h.len == 1 {
        let bits = Seq::new(((h.len - 1) * 8 - c[0]) as nat, |i: int| bit_at(c, i));
        assert(bits =~= Seq::<bool>::empty());
    }
}

/// An enumerated value read from the object-type property keeps its raw value. It is named
/// from the object-type table when it lies below the first reserved type (and the table has
/// an entry for it), and has no name at or above that type.
pub proof fn lemma_object_type_name(b: Seq<u8>, names: EnumNames, object_type: u32)
    requires
        decode_spec(b, names, PROP_OBJECT_TYPE, object_type) matches Ok(ValueModel::Enum(_, _)),
    ensures
        decode_spec(b, names, PROP_OBJECT_TYPE, object_type) matches Ok(ValueModel::Enum(raw, name)) && {
            let h = header_spec(b)->Ok_0;
            &&& raw as nat == be_uint(b.subrange(h.start as int, h.start + h.len))
            &&& (raw < MAX_ASHRAE_OBJECT_TYPE && (raw as int) < names.object_types@.len()) ==> name == Some(
                names.object_types@[raw as int]@,
            )
            &&& raw >= MAX_ASHRAE_OBJECT_TYPE ==> name is None
        },
{
    let h = header_spec(b)->Ok_0;
    let c = b.subrange(h.start as int, h.start + h.len);
    lemma_be_uint_bound(c);
    lemma_pow256_le(c.len(), 4);
    lemma_pow256_8();
}

/// Length of the application tag at the start of `b`, header and content.
pub open spec fn value_len_spec(b: Seq<u8>) -> int {
    let h = header_spec(b)->Ok_0;
    if h.tag == TAG_BOOLEAN {
        h.start as int
    } else {
        h.start + h.len
    }
}

/// Decode the application-tagged value at the start of `buffer`, and say how many bytes
/// it takes.
pub fn decode_first(buffer: &[u8], names: &EnumNames, property: u32, object_type: u32) -> (r: Result<
    (BACnetValue, usize),
    DecodeError,
>)
    ensures
        match r {
            Ok((v, n)) => decode_spec(buffer@, *names, property, object_type) == Ok::<ValueModel, DecodeError>(v.model())
                && n == value_len_spec(buffer@) && n <= buffer@.len(),
            Err(e) => decode_spec(buffer@, *names, property, object_type) == Err::<ValueModel, DecodeError>(e),
        },
{
    let v = match decode(buffer, names, property, object_type) {
        Ok(v) => v,
        Err(e) => return Err(e),
    };
    let h = match read_tag(buffer) {
        Ok(h) => h,
        Err(e) => return Err(e),
    };
    if h.tag == TAG_BOOLEAN {
        Ok((v, h.start))
    } else if h.len as usize > buffer.len() - h.start {
        Err(DecodeError::Truncated)
    } else {
        Ok((v, h.start + h.len as usize))
    }
}

} // verus!
