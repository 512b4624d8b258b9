//! The reading side of the wire grammar, as spec functions over the input
//! bytes and a position; each yields what was read and the position after it.
use vstd::prelude::*;
use vstd::utf8::{decode_utf8, valid_utf8};
use crate::error::Error;
use crate::value::{ArrayBufferViewType, ErrorType, ValueModel};
use crate::wire::{
    TAG_ARRAY_BUFFER, TAG_ARRAY_BUFFER_TRANSFER, TAG_ARRAY_BUFFER_VIEW, TAG_BEGIN_ARRAY,
    TAG_BEGIN_MAP, TAG_BEGIN_OBJECT, TAG_BEGIN_SET, TAG_BIGINT, TAG_BIGINT_OBJECT, TAG_DATE,
    TAG_DOUBLE, TAG_END_ARRAY, TAG_END_MAP, TAG_END_OBJECT, TAG_END_SET, TAG_ERROR, TAG_ERROR_END,
    TAG_ERROR_MESSAGE, TAG_ERROR_STACK, TAG_FALSE, TAG_INT32, TAG_NULL, TAG_NUMBER_OBJECT,
    TAG_OBJECT_REFERENCE, TAG_ONE_BYTE_STRING, TAG_REGEXP, TAG_SHARED_ARRAY_BUFFER,
    TAG_STRING_OBJECT, TAG_TRUE, TAG_TWO_BYTE_STRING, TAG_UINT32, TAG_UNDEFINED,
};

verus! {

/// What a read at `pos` yields: a result and the position after it.
pub type Read<T> = Result<(T, int), Error>;

pub open spec fn truncated_at(pos: int) -> Error {
    Error::Truncated { at: pos as usize }
}

/// The first position at or after `pos` whose byte has the high bit clear.
pub open spec fn varint_end(d: Seq<u8>, pos: int) -> Option<int>
    decreases d.len() - pos,
{
    if pos < 0 || pos >= d.len() {
        None
    } else if d[pos] < 128 {
        Some(pos)
    } else {
        varint_end(d, pos + 1)
    }
}

/// The number whose base-128 digits, least significant first, are the low
/// seven bits of the bytes from `pos` through `last`.
pub open spec fn digits_value(d: Seq<u8>, pos: int, last: int) -> nat
    decreases last - pos,
{
    if pos >= last {
        (d[last] % 128) as nat
    } else {
        (d[pos] % 128) as nat + 128 * digits_value(d, pos + 1, last)
    }
}

/// A varint at `pos`; one whose value exceeds 64 bits is refused as a payload of `tag`.
pub open spec fn read_varint(d: Seq<u8>, pos: int, tag: u8) -> Read<u64> {
    match varint_end(d, pos) {
        None => Err(truncated_at(d.len() as int)),
        Some(last) => if digits_value(d, pos, last) > u64::MAX {
            Err(Error::UnsupportedPayload { tag, at: pos as usize })
        } else {
            Ok((digits_value(d, pos, last) as u64, last + 1))
        },
    }
}

/// A varint at `pos` that must fit 32 bits.
pub open spec fn read_u32(d: Seq<u8>, pos: int, tag: u8) -> Read<u32> {
    match read_varint(d, pos, tag) {
        Err(e) => Err(e),
        Ok((n, q)) => if n > u32::MAX {
            Err(Error::UnsupportedPayload { tag, at: pos as usize })
        } else {
            Ok((n as u32, q))
        },
    }
}

/// The signed integer whose zig-zag mapping is `n`.
pub open spec fn unzigzag(n: nat) -> int {
    if n % 2 == 0 {
        (n / 2) as int
    } else {
        -((n + 1) / 2)
    }
}

/// A zig-zag varint at `pos` that must fit a signed 32-bit integer.
pub open spec fn read_i32(d: Seq<u8>, pos: int, tag: u8) -> Read<i32> {
    match read_varint(d, pos, tag) {
        Err(e) => Err(e),
        Ok((n, q)) => if unzigzag(n as nat) < i32::MIN || unzigzag(n as nat) > i32::MAX {
            Err(Error::UnsupportedPayload { tag, at: pos as usize })
        } else {
            Ok((unzigzag(n as nat) as i32, q))
        },
    }
}

/// `n` bytes at `pos`.
pub open spec fn read_bytes(d: Seq<u8>, pos: int, n: nat) -> Read<Seq<u8>> {
    if 0 <= pos && pos + n <= d.len() {
        Ok((d.subrange(pos, pos + n), pos + n))
    } else {
        Err(truncated_at(pos))
    }
}

/// A text payload at `pos`: a byte length, then that many bytes of UTF-8.
pub open spec fn read_text(d: Seq<u8>, pos: int, tag: u8) -> Read<Seq<char>> {
    match read_varint(d, pos, tag) {
        Err(e) => Err(e),
        Ok((n, p)) => match read_bytes(d, p, n as nat) {
            Err(e) => Err(e),
            Ok((b, q)) => if valid_utf8(b) {
                Ok((decode_utf8(b), q))
            } else {
                Err(Error::InvalidUtf8 { at: p as usize })
            },
        },
    }
}

/// The value of bytes from `j` on, least significant first.
pub open spec fn le_value(b: Seq<u8>, j: int) -> nat
    decreases b.len() - j,
{
    if j < 0 || j >= b.len() {
        0
    } else {
        b[j] as nat + 256 * le_value(b, j + 1)
    }
}

/// The signed value of a bigint payload: a sign and a magnitude.
pub open spec fn bigint_value(negative: bool, mag: nat) -> int {
    if negative {
        -mag
    } else {
        mag as int
    }
}

/// A bigint payload at `pos`: a header (bit 0 the sign, the rest the byte
/// width), then the magnitude, least significant byte first.
pub open spec fn read_bigint(d: Seq<u8>, pos: int) -> Read<i64> {
    match read_varint(d, pos, TAG_BIGINT) {
        Err(e) => Err(e),
        Ok((h, p)) => if h / 2 > 8 {
            Err(Error::UnsupportedPayload { tag: TAG_BIGINT, at: pos as usize })
        } else {
            match read_bytes(d, p, (h / 2) as nat) {
                Err(e) => Err(e),
                Ok((b, q)) => {
                    let v = bigint_value(h % 2 == 1, le_value(b, 0));
                    if v < i64::MIN || v > i64::MAX {
                        Err(Error::UnsupportedPayload { tag: TAG_BIGINT, at: pos as usize })
                    } else {
                        Ok((v as i64, q))
                    }
                },
            }
        },
    }
}

pub open spec fn view_type_of(code: u8) -> Option<ArrayBufferViewType> {
    if code == 0x62 {
        Some(ArrayBufferViewType::Int8Array)
    } else if code == 0x42 {
        Some(ArrayBufferViewType::Uint8Array)
    } else if code == 0x43 {
        Some(ArrayBufferViewType::Uint8ClampedArray)
    } else if code == 0x77 {
        Some(ArrayBufferViewType::Int16Array)
    } else if code == 0x57 {
        Some(ArrayBufferViewType::Uint16Array)
    } else if code == 0x64 {
        Some(ArrayBufferViewType::Int32Array)
    } else if code == 0x44 {
        Some(ArrayBufferViewType::Uint32Array)
    } else if code == 0x66 {
        Some(ArrayBufferViewType::Float32Array)
    } else if code == 0x46 {
        Some(ArrayBufferViewType::Float64Array)
    } else if code == 0x71 {
        Some(ArrayBufferViewType::BigInt64Array)
    } else if code == 0x51 {
        Some(ArrayBufferViewType::BigUint64Array)
    } else if code == 0x3F {
        Some(ArrayBufferViewType::DataView)
    } else {
        None
    }
}

pub open spec fn error_type_of(code: u8) -> Option<ErrorType> {
    if code == 0x45 {
        Some(ErrorType::EvalError)
    } else if code == 0x52 {
        Some(ErrorType::RangeError)
    } else if code == 0x46 {
        Some(ErrorType::ReferenceError)
    } else if code == 0x43 {
        Some(ErrorType::SyntaxError)
    } else if code == 0x54 {
        Some(ErrorType::TypeError)
    } else if code == 0x55 {
        Some(ErrorType::UriError)
    } else {
        None
    }
}

/// The byte `b` at `pos`, or the error for another byte or none.
pub open spec fn expect_byte(d: Seq<u8>, pos: int, b: u8) -> Read<()> {
    if pos < 0 || pos >= d.len() {
        Err(truncated_at(pos))
    } else if d[pos] != b {
        Err(Error::Expected { expected: b, found: d[pos], at: pos as usize })
    } else {
        Ok(((), pos + 1))
    }
}

/// An optional text field of an error value, opened by `marker`.
pub open spec fn read_error_field(d: Seq<u8>, pos: int, marker: u8) -> Read<Option<Seq<char>>> {
    if 0 <= pos < d.len() && d[pos] == marker {
        match expect_byte(d, pos + 1, TAG_ONE_BYTE_STRING) {
            Err(e) => Err(e),
            Ok((_, p)) => match read_text(d, p, TAG_ERROR) {
                Err(e) => Err(e),
                Ok((s, q)) => Ok((Some(s), q)),
            },
        }
    } else {
        Ok((None, pos))
    }
}

/// The payload of an error value at `pos`: an optional kind letter, an
/// optional message, an optional stack, and the closing `.`.
pub open spec fn read_error(d: Seq<u8>, pos: int) -> Read<ValueModel> {
    let (ty, p) = if 0 <= pos < d.len() && error_type_of(d[pos]) is Some {
        (error_type_of(d[pos])->0, pos + 1)
    } else {
        (ErrorType::Unknown, pos)
    };
    match read_error_field(d, p, TAG_ERROR_MESSAGE) {
        Err(e) => Err(e),
        Ok((message, q)) => match read_error_field(d, q, TAG_ERROR_STACK) {
            Err(e) => Err(e),
            Ok((stack, r)) => match expect_byte(d, r, TAG_ERROR_END) {
                Err(e) => Err(e),
                Ok((_, t)) => Ok((ValueModel::Error { ty, message, stack }, t)),
            },
        },
    }
}

/// The error for a composite opened at `at` whose declared count is wrong; a
/// count past 64 bits is reported as the largest one.
pub open spec fn count_check(declared: u64, actual: nat, at: int) -> Option<Error> {
    if declared != actual {
        Some(
            Error::CountMismatch {
                declared,
                actual: if actual <= u64::MAX {
                    actual as u64
                } else {
                    u64::MAX
                },
                at: at as usize,
            },
        )
    } else {
        None
    }
}

/// A value at `pos`.
pub open spec fn parse_value(d: Seq<u8>, pos: int) -> Read<ValueModel>
    decreases d.len() - pos, 0int,
{
    if pos < 0 || pos >= d.len() {
        Err(truncated_at(pos))
    } else {
        let tag = d[pos];
        let p = pos + 1;
        if tag == TAG_UNDEFINED {
            Ok((ValueModel::Undefined, p))
        } else if tag == TAG_NULL {
            Ok((ValueModel::Null, p))
        } else if tag == TAG_TRUE {
            Ok((ValueModel::Boolean(true), p))
        } else if tag == TAG_FALSE {
            Ok((ValueModel::Boolean(false), p))
        } else if tag == TAG_INT32 {
            match read_i32(d, p, tag) {
                Err(e) => Err(e),
                Ok((i, q)) => Ok((ValueModel::Int32(i), q)),
            }
        } else if tag == TAG_UINT32 {
            match read_u32(d, p, tag) {
                Err(e) => Err(e),
                Ok((u, q)) => Ok((ValueModel::Uint32(u), q)),
            }
        } else if tag == TAG_DOUBLE || tag == TAG_DATE || tag == TAG_NUMBER_OBJECT {
            match read_bytes(d, p, 8) {
                Err(e) => Err(e),
                Ok((b, q)) => Ok(
                    (
                        if tag == TAG_DOUBLE {
                            ValueModel::Double(b)
                        } else if tag == TAG_DATE {
                            ValueModel::Date(b)
                        } else {
                            ValueModel::NumberObject(b)
                        },
                        q,
                    ),
                ),
            }
        } else if tag == TAG_BIGINT {
            match read_bigint(d, p) {
                Err(e) => Err(e),
                Ok((i, q)) => Ok((ValueModel::BigInt(i), q)),
            }
        } else if tag == TAG_ONE_BYTE_STRING || tag == TAG_TWO_BYTE_STRING {
            match read_text(d, p, tag) {
                Err(e) => Err(e),
                Ok((s, q)) => Ok((ValueModel::String(s, tag == TAG_TWO_BYTE_STRING), q)),
            }
        } else if tag == TAG_OBJECT_REFERENCE {
            match read_u32(d, p, tag) {
                Err(e) => Err(e),
                Ok((id, q)) => Ok((ValueModel::ObjectReference { id }, q)),
            }
        } else if tag == TAG_BEGIN_OBJECT {
            match parse_fields(d, p, seq![]) {
                Err(e) => Err(e),
                Ok((fields, q)) => match read_varint(d, q, tag) {
                    Err(e) => Err(e),
                    Ok((n, r)) => match count_check(n, fields.len(), pos) {
                        Some(e) => Err(e),
                        None => Ok((ValueModel::Object(fields), r)),
                    },
                },
            }
        } else if tag == TAG_BEGIN_ARRAY {
            match read_varint(d, p, tag) {
                Err(e) => Err(e),
                Ok((len, q)) => if !(pos < q <= d.len()) {
                    Err(truncated_at(pos))
                } else {
                    match parse_items(d, q, TAG_END_ARRAY, seq![]) {
                        Err(e) => Err(e),
                        Ok((items, r)) => match expect_byte(d, r, 0) {
                            Err(e) => Err(e),
                            Ok((_, s)) => match read_varint(d, s, tag) {
                                Err(e) => Err(e),
                                Ok((n, t)) => match count_check(len, items.len(), pos) {
                                    Some(e) => Err(e),
                                    None => match count_check(n, items.len(), pos) {
                                        Some(e) => Err(e),
                                        None => Ok((ValueModel::Array(items), t)),
                                    },
                                },
                            },
                        },
                    }
                },
            }
        } else if tag == TAG_BIGINT_OBJECT {
            Err(Error::UnsupportedPayload { tag, at: pos as usize })
        } else if tag == TAG_STRING_OBJECT {
            match read_text(d, p, tag) {
                Err(e) => Err(e),
                Ok((s, q)) => Ok((ValueModel::StringObject(s), q)),
            }
        } else if tag == TAG_REGEXP {
            match read_text(d, p, tag) {
                Err(e) => Err(e),
                Ok((expr, q)) => match read_u32(d, q, tag) {
                    Err(e) => Err(e),
                    Ok((flags, r)) => Ok((ValueModel::RegExp { expr, flags }, r)),
                },
            }
        } else if tag == TAG_BEGIN_MAP {
            match parse_pairs(d, p, seq![]) {
                Err(e) => Err(e),
                Ok((entries, q)) => match read_varint(d, q, tag) {
                    Err(e) => Err(e),
                    Ok((n, r)) => match count_check(n, 2 * entries.len(), pos) {
                        Some(e) => Err(e),
                        None => Ok((ValueModel::JsMap(entries), r)),
                    },
                },
            }
        } else if tag == TAG_BEGIN_SET {
            match parse_items(d, p, TAG_END_SET, seq![]) {
                Err(e) => Err(e),
                Ok((items, q)) => match read_varint(d, q, tag) {
                    Err(e) => Err(e),
                    Ok((n, r)) => match count_check(n, items.len(), pos) {
                        Some(e) => Err(e),
                        None => Ok((ValueModel::JsSet(items), r)),
                    },
                },
            }
        } else if tag == TAG_ARRAY_BUFFER {
            match read_varint(d, p, tag) {
                Err(e) => Err(e),
                Ok((n, q)) => match read_bytes(d, q, n as nat) {
                    Err(e) => Err(e),
                    Ok((b, r)) => if 0 <= r < d.len() && d[r] == TAG_ARRAY_BUFFER_VIEW {
                        read_view(d, r + 1, b)
                    } else {
                        Ok((ValueModel::ArrayBuffer(b), r))
                    },
                },
            }
        } else if tag == TAG_ARRAY_BUFFER_TRANSFER {
            match read_u32(d, p, tag) {
                Err(e) => Err(e),
                Ok((transfer_id, q)) => Ok((ValueModel::ArrayBufferTransfer { transfer_id }, q)),
            }
        } else if tag == TAG_SHARED_ARRAY_BUFFER {
            match read_u32(d, p, tag) {
                Err(e) => Err(e),
                Ok((transfer_id, q)) => Ok((ValueModel::SharedArrayBuffer { transfer_id }, q)),
            }
        } else if tag == TAG_ERROR {
            read_error(d, p)
        } else {
            Err(Error::UnexpectedTag { byte: tag, at: pos as usize })
        }
    }
}

/// The rest of a typed view at `pos`, after its `V`: the element kind, the
/// byte offset and the byte length, over `buffer`.
pub open spec fn read_view(d: Seq<u8>, pos: int, buffer: Seq<u8>) -> Read<ValueModel> {
    if pos < 0 || pos >= d.len() {
        Err(truncated_at(pos))
    } else if view_type_of(d[pos]) is None {
        Err(Error::UnexpectedTag { byte: d[pos], at: pos as usize })
    } else {
        match read_u32(d, pos + 1, TAG_ARRAY_BUFFER_VIEW) {
            Err(e) => Err(e),
            Ok((byte_offset, q)) => match read_u32(d, q, TAG_ARRAY_BUFFER_VIEW) {
                Err(e) => Err(e),
                Ok((byte_length, r)) => Ok(
                    (
                        ValueModel::ArrayBufferView {
                            ty: view_type_of(d[pos])->0,
                            byte_offset,
                            byte_length,
                            buffer,
                        },
                        r,
                    ),
                ),
            },
        }
    }
}

/// Values from `pos` up to and past the byte `end_tag`, after those in `acc`.
pub open spec fn parse_items(d: Seq<u8>, pos: int, end_tag: u8, acc: Seq<ValueModel>) -> Read<
    Seq<ValueModel>,
>
    decreases d.len() - pos, 1int,
{
    if pos < 0 || pos >= d.len() {
        Err(truncated_at(pos))
    } else if d[pos] == end_tag {
        Ok((acc, pos + 1))
    } else {
        match parse_value(d, pos) {
            Err(e) => Err(e),
            Ok((v, q)) => if pos < q <= d.len() {
                parse_items(d, q, end_tag, acc.push(v))
            } else {
                Err(truncated_at(pos))
            },
        }
    }
}

/// Object fields from `pos` up to and past the closing `{`, after those in `acc`.
pub open spec fn parse_fields(d: Seq<u8>, pos: int, acc: Seq<(Seq<char>, ValueModel)>) -> Read<
    Seq<(Seq<char>, ValueModel)>,
>
    decreases d.len() - pos, 1int,
{
    if pos < 0 || pos >= d.len() {
        Err(truncated_at(pos))
    } else if d[pos] == TAG_END_OBJECT {
        Ok((acc, pos + 1))
    } else if d[pos] != TAG_ONE_BYTE_STRING {
        Err(Error::UnexpectedTag { byte: d[pos], at: pos as usize })
    } else {
        match read_text(d, pos + 1, TAG_ONE_BYTE_STRING) {
            Err(e) => Err(e),
            Ok((k, p)) => if pos < p <= d.len() {
                match parse_value(d, p) {
                    Err(e) => Err(e),
                    Ok((v, q)) => if pos < q <= d.len() {
                        parse_fields(d, q, acc.push((k, v)))
                    } else {
                        Err(truncated_at(pos))
                    },
                }
            } else {
                Err(truncated_at(pos))
            },
        }
    }
}

/// Map entries from `pos` up to and past the closing `:`, after those in `acc`.
pub open spec fn parse_pairs(d: Seq<u8>, pos: int, acc: Seq<(ValueModel, ValueModel)>) -> Read<
    Seq<(ValueModel, ValueModel)>,
>
    decreases d.len() - pos, 1int,
{
    if pos < 0 || pos >= d.len() {
        Err(truncated_at(pos))
    } else if d[pos] == TAG_END_MAP {
        Ok((acc, pos + 1))
    } else {
        match parse_value(d, pos) {
            Err(e) => Err(e),
            Ok((k, p)) => if pos < p <= d.len() {
                match parse_value(d, p) {
                    Err(e) => Err(e),
                    Ok((v, q)) => if pos < q <= d.len() {
                        parse_pairs(d, q, acc.push((k, v)))
                    } else {
                        Err(truncated_at(pos))
                    },
                }
            } else {
                Err(truncated_at(pos))
            },
        }
    }
}

/// The bytes after the optional two-byte header (`0xFF` and a version byte);
/// a lone `0xFF` is a cut-off header.
pub open spec fn payload(d: Seq<u8>) -> Result<Seq<u8>, Error> {
    if d.len() > 0 && d[0] == crate::wire::TAG_VERSION {
        if d.len() < 2 {
            Err(truncated_at(1))
        } else {
            Ok(d.subrange(2, d.len() as int))
        }
    } else {
        Ok(d)
    }
}

/// What decoding a stream yields: the value at the start of its payload.
/// Offsets in errors count from the first byte of the whole input.
pub open spec fn decoded(d: Seq<u8>) -> Result<ValueModel, Error> {
    match payload(d) {
        Err(e) => Err(e),
        Ok(p) => match parse_value(p, 0) {
            Err(e) => Err(e.shifted((d.len() - p.len()) as usize)),
            Ok((v, _)) => Ok(v),
        },
    }
}

} // verus!
