//! How numbers are held in integer columns.
//!
//! A column holds a signed 64-bit integer. Times and counts are clamped into
//! it; byte lengths are split into two limbs of 32 bits.
use vstd::prelude::*;

verus! {

/// The limb base of a byte length.
pub const LIMB: u64 = 4_294_967_296;

/// A number clamped into a column.
pub open spec fn column(value: u64) -> i64 {
    if value <= i64::MAX {
        value as i64
    } else {
        i64::MAX
    }
}

/// A number read from a column: below zero reads as zero.
pub open spec fn natural(value: i64) -> u64 {
    if value >= 0 {
        value as u64
    } else {
        0
    }
}

/// A number read from a column that may be absent: below zero reads as absent.
pub open spec fn optional(value: Option<i64>) -> Option<u64> {
    match value {
        Some(v) if v >= 0 => Some(v as u64),
        _ => None,
    }
}

/// An optional number clamped into a column.
pub open spec fn optional_column(value: Option<u64>) -> Option<i64> {
    match value {
        Some(v) => Some(column(v)),
        None => None,
    }
}

/// A number in two's complement: the upper half of the range is negative.
pub open spec fn wrapped(value: u64) -> i64 {
    if value <= i64::MAX {
        value as i64
    } else {
        (value - 0x1_0000_0000_0000_0000) as i64
    }
}

/// A number clamped into a column, or zero where it does not fit.
pub open spec fn column_or_zero(value: u64) -> i64 {
    if value <= i64::MAX {
        value as i64
    } else {
        0
    }
}

/// The upper limb of a byte length.
pub open spec fn high(bytes: u64) -> i64 {
    (bytes / LIMB) as i64
}

/// The lower limb of a byte length.
pub open spec fn low(bytes: u64) -> i64 {
    (bytes % LIMB) as i64
}

/// The byte length that sums of limbs stand for, as far as it can be told:
/// negative sums and sums beyond 64 bits read as the greatest length.
pub open spec fn joined(hi: i64, lo: i64) -> u64 {
    if hi >= 0 && lo >= 0 && hi * LIMB + lo <= u64::MAX {
        (hi * LIMB + lo) as u64
    } else {
        u64::MAX
    }
}

/// An index read from a column: below zero reads as zero.
pub open spec fn index_of(value: i64) -> usize {
    if value < 0 {
        0
    } else if value <= usize::MAX {
        value as usize
    } else {
        usize::MAX
    }
}

/// Whether a column holds a size.
pub open spec fn is_size(value: i64) -> bool {
    0 <= value <= usize::MAX
}

/// Whether a limb column holds 32 bits.
pub open spec fn is_limb(value: i64) -> bool {
    0 <= value < LIMB
}

/// A byte length survives being split into limbs and joined again.
pub proof fn limbs_round_trip(bytes: u64)
    ensures
        joined(high(bytes), low(bytes)) == bytes,
        is_limb(high(bytes)),
        is_limb(low(bytes)),
        high(bytes) * LIMB + low(bytes) == bytes,
{
}

/// A number that fits in a column survives being stored.
pub proof fn column_round_trip(value: u64)
    ensures
        value <= i64::MAX ==> natural(column(value)) == value,
        value <= i64::MAX ==> optional(Some(column(value))) == Some(value),
        natural(column(value)) <= value,
{
}

pub fn to_column(value: u64) -> (r: i64)
    ensures
        r == column(value),
{
    if value <= i64::MAX as u64 {
        value as i64
    } else {
        i64::MAX
    }
}

pub fn size_to_column(value: usize) -> (r: i64)
    ensures
        r == column(value as u64),
{
    to_column(value as u64)
}

pub fn to_optional_column(value: Option<u64>) -> (r: Option<i64>)
    ensures
        r == optional_column(value),
{
    match value {
        Some(v) => Some(to_column(v)),
        None => None,
    }
}

pub fn to_column_or_zero(value: u64) -> (r: i64)
    ensures
        r == column_or_zero(value),
{
    if value <= i64::MAX as u64 {
        value as i64
    } else {
        0
    }
}

pub fn to_wrapped(value: u64) -> (r: i64)
    ensures
        r == wrapped(value),
{
    if value <= i64::MAX as u64 {
        value as i64
    } else {
        -((u64::MAX - value) as i64) - 1
    }
}

pub fn from_column(value: i64) -> (r: u64)
    ensures
        r == natural(value),
{
    if value >= 0 {
        value as u64
    } else {
        0
    }
}

pub fn from_optional_column(value: Option<i64>) -> (r: Option<u64>)
    ensures
        r == optional(value),
{
    match value {
        Some(v) => if v >= 0 {
            Some(v as u64)
        } else {
            None
        },
        None => None,
    }
}

pub fn to_index(value: i64) -> (r: usize)
    ensures
        r == index_of(value),
{
    if value < 0 {
        0
    } else if value as u64 <= usize::MAX as u64 {
        value as usize
    } else {
        usize::MAX
    }
}

pub fn holds_size(value: i64) -> (r: bool)
    ensures
        r == is_size(value),
{
    value >= 0 && value as u64 <= usize::MAX as u64
}

/// The limbs of a byte length.
pub fn split_bytes(bytes: u64) -> (limbs: (i64, i64))
    ensures
        limbs == (high(bytes), low(bytes)),
{
    ((bytes / LIMB) as i64, (bytes % LIMB) as i64)
}

/// The byte length that sums of limbs stand for.
pub fn combine_byte_sums(hi: i64, lo: i64) -> (bytes: u64)
    ensures
        bytes == joined(hi, lo),
{
    if hi < 0 || lo < 0 {
        return u64::MAX;
    }
    match (hi as u64).checked_mul(LIMB) {
        Some(upper) => match upper.checked_add(lo as u64) {
            Some(bytes) => bytes,
            None => u64::MAX,
        },
        None => u64::MAX,
    }
}

// -------------------------------------------------------------------- errors
/// What is said of a text column that does not decode: its index and what the
/// decoder says.
pub open spec fn undecoded(index: Seq<char>, error: Seq<char>) -> Seq<char> {
    "Conversion error from type Text at index: "@ + index + ", "@ + error
}

/// What is said of a text column that does not decode.
pub fn decode_error(index: &str, error: &str) -> (s: String)
    ensures
        s@ == undecoded(index@, error@),
{
    "Conversion error from type Text at index: ".to_owned().concat(index).concat(", ").concat(error)
}

} // verus!
