use vstd::prelude::*;
use integer_encoding::VarInt;
use vstd::utf8::encode_utf8;
use crate::value::{ArrayBufferViewType, ErrorType, ValueModel};

verus! {

pub const TAG_VERSION: u8 = 0xFF;
pub const TAG_UNDEFINED: u8 = 0x5F;
pub const TAG_NULL: u8 = 0x30;
pub const TAG_TRUE: u8 = 0x54;
pub const TAG_FALSE: u8 = 0x46;
pub const TAG_INT32: u8 = 0x49;
pub const TAG_UINT32: u8 = 0x55;
pub const TAG_DOUBLE: u8 = 0x4E;
pub const TAG_BIGINT: u8 = 0x5A;
pub const TAG_ONE_BYTE_STRING: u8 = 0x22;
pub const TAG_TWO_BYTE_STRING: u8 = 0x63;
pub const TAG_OBJECT_REFERENCE: u8 = 0x5E;
pub const TAG_BEGIN_OBJECT: u8 = 0x6F;
pub const TAG_END_OBJECT: u8 = 0x7B;
pub const TAG_BEGIN_ARRAY: u8 = 0x41;
pub const TAG_END_ARRAY: u8 = 0x24;
pub const TAG_DATE: u8 = 0x44;
pub const TAG_NUMBER_OBJECT: u8 = 0x6E;
pub const TAG_BIGINT_OBJECT: u8 = 0x7A;
pub const TAG_STRING_OBJECT: u8 = 0x73;
pub const TAG_REGEXP: u8 = 0x52;
pub const TAG_BEGIN_MAP: u8 = 0x3B;
pub const TAG_END_MAP: u8 = 0x3A;
pub const TAG_BEGIN_SET: u8 = 0x27;
pub const TAG_END_SET: u8 = 0x2C;
pub const TAG_ARRAY_BUFFER: u8 = 0x42;
pub const TAG_ARRAY_BUFFER_TRANSFER: u8 = 0x74;
pub const TAG_ARRAY_BUFFER_VIEW: u8 = 0x56;
pub const TAG_SHARED_ARRAY_BUFFER: u8 = 0x75;
pub const TAG_ERROR: u8 = 0x72;
pub const TAG_ERROR_MESSAGE: u8 = 0x6D;
pub const TAG_ERROR_STACK: u8 = 0x73;
pub const TAG_ERROR_END: u8 = 0x2E;

/// Little-endian base-128 encoding of `n`: seven bits per byte, high bit set
/// on every byte but the last.
pub open spec fn varint(n: nat) -> Seq<u8>
    decreases n,
{
    if n < 128 {
        seq![n as u8]
    } else {
        seq![(n % 128 + 128) as u8] + varint(n / 128)
    }
}

/// Zig-zag mapping of a signed integer onto the naturals: 0, -1, 1, -2, ...
pub open spec fn zigzag(n: int) -> nat {
    if n >= 0 {
        (2 * n) as nat
    } else {
        (-2 * n - 1) as nat
    }
}

/// The `len` low bytes of `n`, least significant first.
pub open spec fn le_bytes(n: nat, len: nat) -> Seq<u8>
    decreases len,
{
    if len == 0 {
        seq![]
    } else {
        seq![(n % 256) as u8] + le_bytes(n / 256, (len - 1) as nat)
    }
}

/// Relies on integer_encoding's `VarInt::encode_var_vec` for `u64`: the
/// base-128 encoding of the value.
#[verifier::external_body]
pub fn varint_u64(n: u64) -> (r: Vec<u8>)
    ensures
        r@ == varint(n as nat),
{
    n.encode_var_vec()
}

/// Relies on integer_encoding's `VarInt::encode_var_vec` for `i64`: the
/// base-128 encoding of the zig-zag mapped value.
#[verifier::external_body]
pub fn varint_i64(n: i64) -> (r: Vec<u8>)
    ensures
        r@ == varint(zigzag(n as int)),
{
    n.encode_var_vec()
}

/// The header every encoded stream starts with.
pub open spec fn header_bytes() -> Seq<u8> {
    seq![TAG_VERSION, crate::ser::FORMAT_VERSION]
}

/// A text payload: its UTF-8 byte length, then its UTF-8 bytes.
pub open spec fn text_bytes(s: Seq<char>) -> Seq<u8> {
    varint(encode_utf8(s).len()) + encode_utf8(s)
}

/// The magnitude of a 64-bit integer.
pub open spec fn magnitude(i: i64) -> nat {
    if i < 0 {
        (-i) as nat
    } else {
        i as nat
    }
}

/// The header of a bigint payload: bit 0 is the sign, the rest the width of
/// the magnitude (eight bytes).
pub open spec fn bigint_header(i: i64) -> nat {
    if i < 0 {
        17
    } else {
        16
    }
}

pub open spec fn view_code(ty: ArrayBufferViewType) -> u8 {
    match ty {
        ArrayBufferViewType::Int8Array => 0x62,
        ArrayBufferViewType::Uint8Array => 0x42,
        ArrayBufferViewType::Uint8ClampedArray => 0x43,
        ArrayBufferViewType::Int16Array => 0x77,
        ArrayBufferViewType::Uint16Array => 0x57,
        ArrayBufferViewType::Int32Array => 0x64,
        ArrayBufferViewType::Uint32Array => 0x44,
        ArrayBufferViewType::Float32Array => 0x66,
        ArrayBufferViewType::Float64Array => 0x46,
        ArrayBufferViewType::BigInt64Array => 0x71,
        ArrayBufferViewType::BigUint64Array => 0x51,
        ArrayBufferViewType::DataView => 0x3F,
    }
}

/// The one-letter kind of an error value; `Unknown` has none.
pub open spec fn error_kind_bytes(ty: ErrorType) -> Seq<u8> {
    match ty {
        ErrorType::EvalError => seq![0x45u8],
        ErrorType::RangeError => seq![0x52u8],
        ErrorType::ReferenceError => seq![0x46u8],
        ErrorType::SyntaxError => seq![0x43u8],
        ErrorType::TypeError => seq![0x54u8],
        ErrorType::UriError => seq![0x55u8],
        ErrorType::Unknown => seq![],
    }
}

/// An optional text field of an error value: its marker, then a one-byte string.
pub open spec fn error_field_bytes(marker: u8, field: Option<Seq<char>>) -> Seq<u8> {
    match field {
        Some(s) => seq![marker, TAG_ONE_BYTE_STRING] + text_bytes(s),
        None => seq![],
    }
}

/// Whether every length and count inside `v` fits its field on the wire.
pub open spec fn fits(v: ValueModel) -> bool
    decreases v,
{
    match v {
        ValueModel::Object(entries) => entries_fit(entries),
        ValueModel::Array(items) => items_fit(items),
        ValueModel::JsMap(entries) => 2 * entries.len() <= u64::MAX && pairs_fit(entries),
        ValueModel::JsSet(items) => items_fit(items),
        ValueModel::ArrayBuffer(b) => b.len() <= u32::MAX,
        ValueModel::ArrayBufferView { buffer, .. } => buffer.len() <= u32::MAX,
        _ => true,
    }
}

pub open spec fn items_fit(s: Seq<ValueModel>) -> bool
    decreases s,
{
    s.len() > 0 ==> items_fit(s.drop_last()) && fits(s.last())
}

pub open spec fn entries_fit(s: Seq<(Seq<char>, ValueModel)>) -> bool
    decreases s,
{
    s.len() > 0 ==> entries_fit(s.drop_last()) && fits(s.last().1)
}

pub open spec fn pairs_fit(s: Seq<(ValueModel, ValueModel)>) -> bool
    decreases s,
{
    s.len() > 0 ==> pairs_fit(s.drop_last()) && fits(s.last().0) && fits(s.last().1)
}

/// The bytes that encode `v`.
pub open spec fn value_bytes(v: ValueModel) -> Seq<u8>
    decreases v,
{
    match v {
        ValueModel::Undefined => seq![TAG_UNDEFINED],
        ValueModel::Null => seq![TAG_NULL],
        ValueModel::Boolean(b) => seq![if b { TAG_TRUE } else { TAG_FALSE }],
        ValueModel::Int32(i) => seq![TAG_INT32] + varint(zigzag(i as int)),
        ValueModel::Uint32(u) => seq![TAG_UINT32] + varint(u as nat),
        ValueModel::Double(d) => seq![TAG_DOUBLE] + d,
        ValueModel::BigInt(i) => seq![TAG_BIGINT] + varint(bigint_header(i)) + le_bytes(magnitude(i), 8),
        ValueModel::String(s, two_byte) => seq![
            if two_byte { TAG_TWO_BYTE_STRING } else { TAG_ONE_BYTE_STRING },
        ] + text_bytes(s),
        ValueModel::ObjectReference { id } => seq![TAG_OBJECT_REFERENCE] + varint(id as nat),
        ValueModel::Object(entries) => seq![TAG_BEGIN_OBJECT] + entries_bytes(entries) + seq![
            TAG_END_OBJECT,
        ] + varint(entries.len()),
        ValueModel::Array(items) => seq![TAG_BEGIN_ARRAY] + varint(items.len()) + items_bytes(items)
            + seq![TAG_END_ARRAY, 0u8] + varint(items.len()),
        ValueModel::Date(d) => seq![TAG_DATE] + d,
        ValueModel::NumberObject(d) => seq![TAG_NUMBER_OBJECT] + d,
        ValueModel::BigIntObject => seq![TAG_BIGINT_OBJECT],
        ValueModel::StringObject(s) => seq![TAG_STRING_OBJECT] + text_bytes(s),
        ValueModel::RegExp { expr, flags } => seq![TAG_REGEXP] + text_bytes(expr) + varint(flags as nat),
        ValueModel::JsMap(entries) => seq![TAG_BEGIN_MAP] + pairs_bytes(entries) + seq![TAG_END_MAP]
            + varint(2 * entries.len()),
        ValueModel::JsSet(items) => seq![TAG_BEGIN_SET] + items_bytes(items) + seq![TAG_END_SET]
            + varint(items.len()),
        ValueModel::ArrayBuffer(b) => seq![TAG_ARRAY_BUFFER] + varint(b.len()) + b,
        ValueModel::ArrayBufferTransfer { transfer_id } => seq![TAG_ARRAY_BUFFER_TRANSFER] + varint(
            transfer_id as nat,
        ),
        ValueModel::ArrayBufferView { ty, byte_offset, byte_length, buffer } => seq![TAG_ARRAY_BUFFER]
            + varint(buffer.len()) + buffer + seq![TAG_ARRAY_BUFFER_VIEW, view_code(ty)] + varint(
            byte_offset as nat,
        ) + varint(byte_length as nat),
        ValueModel::SharedArrayBuffer { transfer_id } => seq![TAG_SHARED_ARRAY_BUFFER] + varint(
            transfer_id as nat,
        ),
        ValueModel::Error { ty, message, stack } => seq![TAG_ERROR] + error_kind_bytes(ty)
            + error_field_bytes(TAG_ERROR_MESSAGE, message) + error_field_bytes(
            TAG_ERROR_STACK,
            stack,
        ) + seq![TAG_ERROR_END],
    }
}

/// The bytes of a run of values, one after the other.
pub open spec fn items_bytes(s: Seq<ValueModel>) -> Seq<u8>
    decreases s,
{
    if s.len() == 0 {
        seq![]
    } else {
        items_bytes(s.drop_last()) + value_bytes(s.last())
    }
}

/// The bytes of the fields of an object: each a one-byte string key, then its value.
pub open spec fn entries_bytes(s: Seq<(Seq<char>, ValueModel)>) -> Seq<u8>
    decreases s,
{
    if s.len() == 0 {
        seq![]
    } else {
        entries_bytes(s.drop_last()) + seq![TAG_ONE_BYTE_STRING] + text_bytes(s.last().0)
            + value_bytes(s.last().1)
    }
}

/// The bytes of the entries of a map: each key, then its value.
pub open spec fn pairs_bytes(s: Seq<(ValueModel, ValueModel)>) -> Seq<u8>
    decreases s,
{
    if s.len() == 0 {
        seq![]
    } else {
        pairs_bytes(s.drop_last()) + value_bytes(s.last().0) + value_bytes(s.last().1)
    }
}

pub proof fn lemma_items_fit_index(s: Seq<ValueModel>, i: int)
    requires
        0 <= i < s.len(),
    ensures
        items_fit(s) ==> fits(s[i]),
    decreases s.len(),
{
    if i < s.len() - 1 {
        lemma_items_fit_index(s.drop_last(), i);
    }
}

pub proof fn lemma_entries_fit_index(s: Seq<(Seq<char>, ValueModel)>, i: int)
    requires
        0 <= i < s.len(),
    ensures
        entries_fit(s) ==> fits(s[i].1),
    decreases s.len(),
{
    if i < s.len() - 1 {
        lemma_entries_fit_index(s.drop_last(), i);
    }
}

pub proof fn lemma_pairs_fit_index(s: Seq<(ValueModel, ValueModel)>, i: int)
    requires
        0 <= i < s.len(),
    ensures
        pairs_fit(s) ==> fits(s[i].0) && fits(s[i].1),
    decreases s.len(),
{
    if i < s.len() - 1 {
        lemma_pairs_fit_index(s.drop_last(), i);
    }
}

} // verus!
