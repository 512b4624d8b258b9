//! Properties that relate the encoder and the decoder.
use vstd::prelude::*;
use vstd::utf8::{encode_utf8, encode_utf8_decode_utf8, encode_utf8_valid_utf8};
use crate::read::{
    bigint_value, decoded, digits_value, error_type_of, le_value, parse_fields, parse_items,
    parse_pairs, parse_value, read_text, read_varint, unzigzag, varint_end, view_type_of,
};
use crate::value::{ErrorType, Value, ValueModel};
use crate::wire::{
    bigint_header, entries_bytes, error_field_bytes, error_kind_bytes, header_bytes, items_bytes,
    le_bytes, magnitude, pairs_bytes, text_bytes, value_bytes, varint, view_code, zigzag,
    TAG_ARRAY_BUFFER_VIEW, TAG_END_ARRAY, TAG_END_MAP, TAG_END_OBJECT, TAG_END_SET,
    TAG_ERROR_END, TAG_ERROR_MESSAGE, TAG_ERROR_STACK, TAG_ONE_BYTE_STRING, TAG_VERSION,
};

verus! {

/// The header is optional: a payload decodes to the same value with or
/// without the two header bytes in front of it, whatever the version byte;
/// where it fails, it fails the same way, at an offset two bytes further on
/// with the header.
pub proof fn lemma_header_is_optional(payload: Seq<u8>, version: u8)
    requires
        payload.len() == 0 || payload[0] != TAG_VERSION,
    ensures
        decoded(seq![TAG_VERSION, version] + payload) == match decoded(payload) {
            Ok(v) => Ok::<ValueModel, crate::error::Error>(v),
            Err(e) => Err(e.shifted(2)),
        },
{
    let d = seq![TAG_VERSION, version] + payload;
    assert(d.subrange(2, d.len() as int) =~= payload);
    if let Err(e) = parse_value(payload, 0) {
        lemma_shift_by_nothing(e);
    }
}

/// Moving an offset on by nothing keeps the error.
pub proof fn lemma_shift_by_nothing(e: crate::error::Error)
    ensures
        e.shifted(0) == e,
{
}

/// `s` stands in `d` from `pos` on.
pub open spec fn at(d: Seq<u8>, pos: int, s: Seq<u8>) -> bool {
    0 <= pos && pos + s.len() <= d.len() && d.subrange(pos, pos + s.len()) == s
}

pub proof fn lemma_at_split(d: Seq<u8>, pos: int, a: Seq<u8>, b: Seq<u8>)
    requires
        at(d, pos, a + b),
    ensures
        at(d, pos, a),
        at(d, pos + a.len(), b),
{
    let whole = d.subrange(pos, pos + a.len() + b.len());
    assert(whole == a + b);
    assert(d.subrange(pos, pos + a.len()) =~= whole.subrange(0, a.len() as int));
    assert(whole.subrange(0, a.len() as int) =~= a);
    assert(d.subrange(pos + a.len(), pos + a.len() + b.len()) =~= whole.subrange(
        a.len() as int,
        (a.len() + b.len()) as int,
    ));
    assert(whole.subrange(a.len() as int, (a.len() + b.len()) as int) =~= b);
}

pub proof fn lemma_at_index(d: Seq<u8>, pos: int, s: Seq<u8>, i: int)
    requires
        at(d, pos, s),
        0 <= i < s.len(),
    ensures
        d[pos + i] == s[i],
{
    assert(d.subrange(pos, pos + s.len())[i] == d[pos + i]);
}

pub proof fn lemma_varint_len(n: nat)
    ensures
        varint(n).len() >= 1,
    decreases n,
{
    if n >= 128 {
        lemma_varint_len(n / 128);
    }
}

pub proof fn lemma_varint_digits(d: Seq<u8>, pos: int, n: nat)
    requires
        at(d, pos, varint(n)),
    ensures
        varint(n).len() >= 1,
        varint_end(d, pos) == Some(pos + varint(n).len() - 1),
        digits_value(d, pos, pos + varint(n).len() - 1) == n,
    decreases n,
{
    lemma_varint_len(n);
    lemma_at_index(d, pos, varint(n), 0);
    if n >= 128 {
        let rest = varint(n / 128);
        assert(varint(n) == seq![(n % 128 + 128) as u8] + rest);
        lemma_at_split(d, pos, seq![(n % 128 + 128) as u8], rest);
        lemma_varint_digits(d, pos + 1, n / 128);
    }
}

/// A varint written for `n` reads back as `n`.
pub proof fn lemma_read_varint(d: Seq<u8>, pos: int, n: nat, tag: u8)
    requires
        at(d, pos, varint(n)),
        n <= u64::MAX,
    ensures
        read_varint(d, pos, tag) == Ok::<(u64, int), crate::error::Error>(
            (n as u64, pos + varint(n).len()),
        ),
{
    lemma_varint_digits(d, pos, n);
}

pub proof fn lemma_unzigzag(i: int)
    ensures
        unzigzag(zigzag(i)) == i,
{
}

pub open spec fn pow256(k: nat) -> nat
    decreases k,
{
    if k == 0 {
        1
    } else {
        256 * pow256((k - 1) as nat)
    }
}

pub proof fn lemma_le_shift(x: u8, t: Seq<u8>, j: int)
    requires
        0 <= j,
    ensures
        le_value(seq![x] + t, j + 1) == le_value(t, j),
    decreases t.len() - j,
{
    if j < t.len() {
        lemma_le_shift(x, t, j + 1);
        assert((seq![x] + t)[j + 1] == t[j]);
    }
}

/// Little-endian bytes written for `m` read back as `m`.
pub proof fn lemma_le_round(m: nat, k: nat)
    requires
        m < pow256(k),
    ensures
        le_bytes(m, k).len() == k,
        le_value(le_bytes(m, k), 0) == m,
    decreases k,
{
    if k > 0 {
        let t = le_bytes(m / 256, (k - 1) as nat);
        lemma_le_round(m / 256, (k - 1) as nat);
        lemma_le_shift((m % 256) as u8, t, 0);
        assert(le_bytes(m, k) == seq![(m % 256) as u8] + t);
    }
}

/// A text payload written for `s` reads back as `s`.
pub proof fn lemma_read_text(d: Seq<u8>, pos: int, s: Seq<char>, tag: u8)
    requires
        at(d, pos, text_bytes(s)),
        encode_utf8(s).len() <= u64::MAX,
    ensures
        read_text(d, pos, tag) == Ok::<(Seq<char>, int), crate::error::Error>(
            (s, pos + text_bytes(s).len()),
        ),
{
    let b = encode_utf8(s);
    lemma_at_split(d, pos, varint(b.len()), b);
    lemma_read_varint(d, pos, b.len(), tag);
    encode_utf8_valid_utf8(s);
    encode_utf8_decode_utf8(s);
}

pub open spec fn text_ok(s: Seq<char>) -> bool {
    encode_utf8(s).len() <= u64::MAX
}

pub open spec fn field_ok(o: Option<Seq<char>>) -> bool {
    match o {
        Some(s) => text_ok(s),
        None => true,
    }
}

/// Whether `m` is carried whole by the codec: its doubles are eight bytes,
/// its lengths and counts fit their fields, and it holds no boxed bigint,
/// whose payload this codec does not carry.
pub open spec fn encodable(m: ValueModel) -> bool
    decreases m,
{
    match m {
        ValueModel::Double(b) => b.len() == 8,
        ValueModel::Date(b) => b.len() == 8,
        ValueModel::NumberObject(b) => b.len() == 8,
        ValueModel::String(s, _) => text_ok(s),
        ValueModel::StringObject(s) => text_ok(s),
        ValueModel::RegExp { expr, .. } => text_ok(expr),
        ValueModel::Object(e) => e.len() <= u64::MAX && entries_encodable(e),
        ValueModel::Array(s) => s.len() <= u64::MAX && items_encodable(s),
        ValueModel::JsSet(s) => s.len() <= u64::MAX && items_encodable(s),
        ValueModel::JsMap(p) => 2 * p.len() <= u64::MAX && pairs_encodable(p),
        ValueModel::BigIntObject => false,
        ValueModel::ArrayBuffer(b) => b.len() <= u32::MAX,
        ValueModel::ArrayBufferView { buffer, .. } => buffer.len() <= u32::MAX,
        ValueModel::Error { message, stack, .. } => field_ok(message) && field_ok(stack),
        _ => true,
    }
}

pub open spec fn items_encodable(s: Seq<ValueModel>) -> bool
    decreases s,
{
    s.len() > 0 ==> items_encodable(s.drop_last()) && encodable(s.last())
}

pub open spec fn entries_encodable(s: Seq<(Seq<char>, ValueModel)>) -> bool
    decreases s,
{
    s.len() > 0 ==> entries_encodable(s.drop_last()) && text_ok(s.last().0) && encodable(
        s.last().1,
    )
}

pub open spec fn pairs_encodable(s: Seq<(ValueModel, ValueModel)>) -> bool
    decreases s,
{
    s.len() > 0 ==> pairs_encodable(s.drop_last()) && encodable(s.last().0) && encodable(
        s.last().1,
    )
}

/// A byte that can open a value: no closing tag, and not the view marker.
pub open spec fn opens_value(b: u8) -> bool {
    b != TAG_ARRAY_BUFFER_VIEW && b != TAG_END_OBJECT && b != TAG_END_ARRAY && b != TAG_END_MAP
        && b != TAG_END_SET
}

/// Nothing at `i` continues an array buffer into a view.
pub open spec fn ends_value(d: Seq<u8>, i: int) -> bool {
    i >= d.len() || d[i] != TAG_ARRAY_BUFFER_VIEW
}

pub proof fn lemma_first_byte(m: ValueModel)
    ensures
        value_bytes(m).len() >= 1,
        opens_value(value_bytes(m)[0]),
{
}

/// A value's bytes read back as the value, and the read ends after them.
#[verifier::rlimit(60)]
pub proof fn lemma_parse_value_bytes(d: Seq<u8>, pos: int, m: ValueModel)
    requires
        encodable(m),
        at(d, pos, value_bytes(m)),
        ends_value(d, pos + value_bytes(m).len()),
    ensures
        parse_value(d, pos) == Ok::<(ValueModel, int), crate::error::Error>(
            (m, pos + value_bytes(m).len()),
        ),
    decreases m, 2int,
{
    match m {
        ValueModel::Object(e) => {
            assert(value_bytes(m) == body_bytes(m) + varint(count_of(m)));
            lemma_object_bytes(d, pos, e, count_of(m));
        },
        ValueModel::Array(s) => {
            assert(value_bytes(m) == body_bytes(m) + varint(count_of(m)));
            lemma_array_bytes(d, pos, s, count_of(m));
        },
        ValueModel::JsSet(s) => {
            assert(value_bytes(m) == body_bytes(m) + varint(count_of(m)));
            lemma_set_bytes(d, pos, s, count_of(m));
        },
        ValueModel::JsMap(e) => {
            assert(value_bytes(m) == body_bytes(m) + varint(count_of(m)));
            lemma_map_bytes(d, pos, e, count_of(m));
        },
        ValueModel::Error { ty, message, stack } => lemma_parse_error_bytes(
            d,
            pos,
            ty,
            message,
            stack,
        ),
        ValueModel::Int32(_) => lemma_int_bytes(d, pos, m),
        ValueModel::Uint32(_) => lemma_uint_bytes(d, pos, m),
        ValueModel::ObjectReference { .. } => lemma_reference_bytes(d, pos, m),
        ValueModel::ArrayBufferTransfer { .. } => lemma_transfer_bytes(d, pos, m),
        ValueModel::SharedArrayBuffer { .. } => lemma_shared_bytes(d, pos, m),
        ValueModel::Double(_) => lemma_double_bytes(d, pos, m),
        ValueModel::Date(_) => lemma_date_bytes(d, pos, m),
        ValueModel::NumberObject(_) => lemma_number_bytes(d, pos, m),
        ValueModel::BigInt(_) => lemma_bigint_bytes(d, pos, m),
        ValueModel::String(..) => lemma_string_bytes(d, pos, m),
        ValueModel::StringObject(_) => lemma_string_object_bytes(d, pos, m),
        ValueModel::RegExp { .. } => lemma_regexp_bytes(d, pos, m),
        ValueModel::ArrayBuffer(_) => lemma_buffer_bytes(d, pos, m),
        ValueModel::ArrayBufferView { .. } => lemma_view_bytes(d, pos, m),
        _ => {
            lemma_first_byte(m);
            lemma_at_index(d, pos, value_bytes(m), 0);
        },
    }
}

proof fn lemma_int_bytes(d: Seq<u8>, pos: int, m: ValueModel)
    requires
        m is Int32,
        encodable(m),
        at(d, pos, value_bytes(m)),
        ends_value(d, pos + value_bytes(m).len()),
    ensures
        parse_value(d, pos) == Ok::<(ValueModel, int), crate::error::Error>(
            (m, pos + value_bytes(m).len()),
        ),
{
    let vb = value_bytes(m);
    let p = pos + 1;
    lemma_first_byte(m);
    lemma_at_index(d, pos, vb, 0);
    match m {
        ValueModel::Int32(i) => {
            lemma_at_split(d, pos, seq![vb[0]], varint(zigzag(i as int)));
            lemma_read_varint(d, p, zigzag(i as int), vb[0]);
            lemma_unzigzag(i as int);
        },
        _ => {},
    }
}

proof fn lemma_uint_bytes(d: Seq<u8>, pos: int, m: ValueModel)
    requires
        m is Uint32,
        encodable(m),
        at(d, pos, value_bytes(m)),
        ends_value(d, pos + value_bytes(m).len()),
    ensures
        parse_value(d, pos) == Ok::<(ValueModel, int), crate::error::Error>(
            (m, pos + value_bytes(m).len()),
        ),
{
    let vb = value_bytes(m);
    let p = pos + 1;
    lemma_first_byte(m);
    lemma_at_index(d, pos, vb, 0);
    match m {
        ValueModel::Uint32(u) => {
            lemma_at_split(d, pos, seq![vb[0]], varint(u as nat));
            lemma_read_varint(d, p, u as nat, vb[0]);
        },
        _ => {},
    }
}

proof fn lemma_reference_bytes(d: Seq<u8>, pos: int, m: ValueModel)
    requires
        m is ObjectReference,
        encodable(m),
        at(d, pos, value_bytes(m)),
        ends_value(d, pos + value_bytes(m).len()),
    ensures
        parse_value(d, pos) == Ok::<(ValueModel, int), crate::error::Error>(
            (m, pos + value_bytes(m).len()),
        ),
{
    let vb = value_bytes(m);
    let p = pos + 1;
    lemma_first_byte(m);
    lemma_at_index(d, pos, vb, 0);
    match m {
        ValueModel::ObjectReference { id } => {
            lemma_at_split(d, pos, seq![vb[0]], varint(id as nat));
            lemma_read_varint(d, p, id as nat, vb[0]);
        },
        _ => {},
    }
}

proof fn lemma_transfer_bytes(d: Seq<u8>, pos: int, m: ValueModel)
    requires
        m is ArrayBufferTransfer,
        encodable(m),
        at(d, pos, value_bytes(m)),
        ends_value(d, pos + value_bytes(m).len()),
    ensures
        parse_value(d, pos) == Ok::<(ValueModel, int), crate::error::Error>(
            (m, pos + value_bytes(m).len()),
        ),
{
    let vb = value_bytes(m);
    let p = pos + 1;
    lemma_first_byte(m);
    lemma_at_index(d, pos, vb, 0);
    match m {
        ValueModel::ArrayBufferTransfer { transfer_id } => {
            lemma_at_split(d, pos, seq![vb[0]], varint(transfer_id as nat));
            lemma_read_varint(d, p, transfer_id as nat, vb[0]);
        },
        _ => {},
    }
}

proof fn lemma_shared_bytes(d: Seq<u8>, pos: int, m: ValueModel)
    requires
        m is SharedArrayBuffer,
        encodable(m),
        at(d, pos, value_bytes(m)),
        ends_value(d, pos + value_bytes(m).len()),
    ensures
        parse_value(d, pos) == Ok::<(ValueModel, int), crate::error::Error>(
            (m, pos + value_bytes(m).len()),
        ),
{
    let vb = value_bytes(m);
    let p = pos + 1;
    lemma_first_byte(m);
    lemma_at_index(d, pos, vb, 0);
    match m {
        ValueModel::SharedArrayBuffer { transfer_id } => {
            lemma_at_split(d, pos, seq![vb[0]], varint(transfer_id as nat));
            lemma_read_varint(d, p, transfer_id as nat, vb[0]);
        },
        _ => {},
    }
}

proof fn lemma_double_bytes(d: Seq<u8>, pos: int, m: ValueModel)
    requires
        m is Double,
        encodable(m),
        at(d, pos, value_bytes(m)),
        ends_value(d, pos + value_bytes(m).len()),
    ensures
        parse_value(d, pos) == Ok::<(ValueModel, int), crate::error::Error>(
            (m, pos + value_bytes(m).len()),
        ),
{
    let vb = value_bytes(m);
    let p = pos + 1;
    lemma_first_byte(m);
    lemma_at_index(d, pos, vb, 0);
    match m {
        ValueModel::Double(b) => {
            lemma_at_split(d, pos, seq![vb[0]], b);
        },
        _ => {},
    }
}

proof fn lemma_date_bytes(d: Seq<u8>, pos: int, m: ValueModel)
    requires
        m is Date,
        encodable(m),
        at(d, pos, value_bytes(m)),
        ends_value(d, pos + value_bytes(m).len()),
    ensures
        parse_value(d, pos) == Ok::<(ValueModel, int), crate::error::Error>(
            (m, pos + value_bytes(m).len()),
        ),
{
    let vb = value_bytes(m);
    let p = pos + 1;
    lemma_first_byte(m);
    lemma_at_index(d, pos, vb, 0);
    match m {
        ValueModel::Date(b) => {
            lemma_at_split(d, pos, seq![vb[0]], b);
        },
        _ => {},
    }
}

proof fn lemma_number_bytes(d: Seq<u8>, pos: int, m: ValueModel)
    requires
        m is NumberObject,
        encodable(m),
        at(d, pos, value_bytes(m)),
        ends_value(d, pos + value_bytes(m).len()),
    ensures
        parse_value(d, pos) == Ok::<(ValueModel, int), crate::error::Error>(
            (m, pos + value_bytes(m).len()),
        ),
{
    let vb = value_bytes(m);
    let p = pos + 1;
    lemma_first_byte(m);
    lemma_at_index(d, pos, vb, 0);
    match m {
        ValueModel::NumberObject(b) => {
            lemma_at_split(d, pos, seq![vb[0]], b);
        },
        _ => {},
    }
}

#[verifier::rlimit(60)]
proof fn lemma_bigint_bytes(d: Seq<u8>, pos: int, m: ValueModel)
    requires
        m is BigInt,
        encodable(m),
        at(d, pos, value_bytes(m)),
        ends_value(d, pos + value_bytes(m).len()),
    ensures
        parse_value(d, pos) == Ok::<(ValueModel, int), crate::error::Error>(
            (m, pos + value_bytes(m).len()),
        ),
{
    let vb = value_bytes(m);
    let p = pos + 1;
    lemma_first_byte(m);
    lemma_at_index(d, pos, vb, 0);
    match m {
        ValueModel::BigInt(i) => {
            let h = bigint_header(i);
            let mag = magnitude(i);
            lemma_at_split(d, pos, seq![vb[0]] + varint(h), le_bytes(mag, 8));
            lemma_at_split(d, pos, seq![vb[0]], varint(h));
            lemma_read_varint(d, p, h, vb[0]);
            assert(pow256(8) == 0x1_0000_0000_0000_0000) by {
                reveal_with_fuel(pow256, 9);
            }
            lemma_le_round(mag, 8);
            let q = p + varint(h).len();
            assert(d.subrange(q, q + 8) == le_bytes(mag, 8));
            assert(bigint_value(h % 2 == 1, mag) == i as int);
        },
        _ => {},
    }
}

proof fn lemma_string_bytes(d: Seq<u8>, pos: int, m: ValueModel)
    requires
        m is String,
        encodable(m),
        at(d, pos, value_bytes(m)),
        ends_value(d, pos + value_bytes(m).len()),
    ensures
        parse_value(d, pos) == Ok::<(ValueModel, int), crate::error::Error>(
            (m, pos + value_bytes(m).len()),
        ),
{
    let vb = value_bytes(m);
    let p = pos + 1;
    lemma_first_byte(m);
    lemma_at_index(d, pos, vb, 0);
    match m {
        ValueModel::String(s, two_byte) => {
            lemma_at_split(d, pos, seq![vb[0]], text_bytes(s));
            lemma_read_text(d, p, s, vb[0]);
        },
        _ => {},
    }
}

proof fn lemma_string_object_bytes(d: Seq<u8>, pos: int, m: ValueModel)
    requires
        m is StringObject,
        encodable(m),
        at(d, pos, value_bytes(m)),
        ends_value(d, pos + value_bytes(m).len()),
    ensures
        parse_value(d, pos) == Ok::<(ValueModel, int), crate::error::Error>(
            (m, pos + value_bytes(m).len()),
        ),
{
    let vb = value_bytes(m);
    let p = pos + 1;
    lemma_first_byte(m);
    lemma_at_index(d, pos, vb, 0);
    match m {
        ValueModel::StringObject(s) => {
            lemma_at_split(d, pos, seq![vb[0]], text_bytes(s));
            lemma_read_text(d, p, s, vb[0]);
        },
        _ => {},
    }
}

proof fn lemma_regexp_bytes(d: Seq<u8>, pos: int, m: ValueModel)
    requires
        m is RegExp,
        encodable(m),
        at(d, pos, value_bytes(m)),
        ends_value(d, pos + value_bytes(m).len()),
    ensures
        parse_value(d, pos) == Ok::<(ValueModel, int), crate::error::Error>(
            (m, pos + value_bytes(m).len()),
        ),
{
    let vb = value_bytes(m);
    let p = pos + 1;
    lemma_first_byte(m);
    lemma_at_index(d, pos, vb, 0);
    match m {
        ValueModel::RegExp { expr, flags } => {
            lemma_at_split(d, pos, seq![vb[0]] + text_bytes(expr), varint(flags as nat));
            lemma_at_split(d, pos, seq![vb[0]], text_bytes(expr));
            lemma_read_text(d, p, expr, vb[0]);
            lemma_read_varint(d, p + text_bytes(expr).len(), flags as nat, vb[0]);
        },
        _ => {},
    }
}

proof fn lemma_buffer_bytes(d: Seq<u8>, pos: int, m: ValueModel)
    requires
        m is ArrayBuffer,
        encodable(m),
        at(d, pos, value_bytes(m)),
        ends_value(d, pos + value_bytes(m).len()),
    ensures
        parse_value(d, pos) == Ok::<(ValueModel, int), crate::error::Error>(
            (m, pos + value_bytes(m).len()),
        ),
{
    let vb = value_bytes(m);
    let p = pos + 1;
    lemma_first_byte(m);
    lemma_at_index(d, pos, vb, 0);
    match m {
        ValueModel::ArrayBuffer(b) => {
            lemma_at_split(d, pos, seq![vb[0]] + varint(b.len()), b);
            lemma_at_split(d, pos, seq![vb[0]], varint(b.len()));
            lemma_read_varint(d, p, b.len(), vb[0]);
        },
        _ => {},
    }
}

#[verifier::rlimit(60)]
proof fn lemma_view_bytes(d: Seq<u8>, pos: int, m: ValueModel)
    requires
        m is ArrayBufferView,
        encodable(m),
        at(d, pos, value_bytes(m)),
        ends_value(d, pos + value_bytes(m).len()),
    ensures
        parse_value(d, pos) == Ok::<(ValueModel, int), crate::error::Error>(
            (m, pos + value_bytes(m).len()),
        ),
{
    let vb = value_bytes(m);
    let p = pos + 1;
    lemma_first_byte(m);
    lemma_at_index(d, pos, vb, 0);
    match m {
        ValueModel::ArrayBufferView { ty, byte_offset, byte_length, buffer } => {
            let a = seq![vb[0]] + varint(buffer.len());
            let c = seq![TAG_ARRAY_BUFFER_VIEW, view_code(ty)];
            lemma_at_split(d, pos, a + buffer + c + varint(byte_offset as nat), varint(
                byte_length as nat,
            ));
            lemma_at_split(d, pos, a + buffer + c, varint(byte_offset as nat));
            lemma_at_split(d, pos, a + buffer, c);
            lemma_at_split(d, pos, a, buffer);
            lemma_at_split(d, pos, seq![vb[0]], varint(buffer.len()));
            lemma_read_varint(d, p, buffer.len(), vb[0]);
            let r = pos + a.len() + buffer.len();
            lemma_at_index(d, r, c, 0);
            lemma_at_index(d, r, c, 1);
            assert(view_type_of(view_code(ty)) == Some(ty));
            lemma_read_varint(d, r + 2, byte_offset as nat, TAG_ARRAY_BUFFER_VIEW);
            lemma_read_varint(
                d,
                r + 2 + varint(byte_offset as nat).len(),
                byte_length as nat,
                TAG_ARRAY_BUFFER_VIEW,
            );
        },
        _ => {},
    }
}

/// A composite: an object, an array, a map or a set.
pub open spec fn is_composite(m: ValueModel) -> bool {
    m is Object || m is Array || m is JsMap || m is JsSet
}

/// The count that closes a composite's bytes.
pub open spec fn count_of(m: ValueModel) -> nat {
    match m {
        ValueModel::Object(e) => e.len(),
        ValueModel::Array(s) => s.len(),
        ValueModel::JsSet(s) => s.len(),
        ValueModel::JsMap(e) => 2 * e.len(),
        _ => 0,
    }
}

/// A composite's bytes before its closing count.
pub open spec fn body_bytes(m: ValueModel) -> Seq<u8> {
    match m {
        ValueModel::Object(e) => seq![crate::wire::TAG_BEGIN_OBJECT] + entries_bytes(e) + seq![
            TAG_END_OBJECT,
        ],
        ValueModel::Array(s) => seq![crate::wire::TAG_BEGIN_ARRAY] + varint(s.len())
            + items_bytes(s) + seq![TAG_END_ARRAY, 0u8],
        ValueModel::JsSet(s) => seq![crate::wire::TAG_BEGIN_SET] + items_bytes(s) + seq![
            TAG_END_SET,
        ],
        ValueModel::JsMap(e) => seq![crate::wire::TAG_BEGIN_MAP] + pairs_bytes(e) + seq![
            TAG_END_MAP,
        ],
        _ => value_bytes(m),
    }
}

/// What reading a composite's body closed by the count `c` yields.
pub open spec fn closed_by(m: ValueModel, c: nat, pos: int) -> crate::read::Read<ValueModel> {
    if c == count_of(m) {
        Ok((m, pos + body_bytes(m).len() + varint(c).len()))
    } else {
        Err(
            crate::error::Error::CountMismatch {
                declared: c as u64,
                actual: count_of(m) as u64,
                at: pos as usize,
            },
        )
    }
}

proof fn lemma_object_bytes(d: Seq<u8>, pos: int, e: Seq<(Seq<char>, ValueModel)>, c: nat)
    requires
        encodable(ValueModel::Object(e)),
        at(d, pos, body_bytes(ValueModel::Object(e)) + varint(c)),
        c <= u64::MAX,
    ensures
        parse_value(d, pos) == closed_by(ValueModel::Object(e), c, pos),
    decreases e, 1int,
{
    let t = crate::wire::TAG_BEGIN_OBJECT;
    let a = seq![t] + entries_bytes(e);
    let p = pos + 1;
    lemma_at_split(d, pos, a + seq![TAG_END_OBJECT], varint(c));
    lemma_at_split(d, pos, a, seq![TAG_END_OBJECT]);
    lemma_at_split(d, pos, seq![t], entries_bytes(e));
    lemma_at_index(d, pos, seq![t], 0);
    let q = p + entries_bytes(e).len();
    lemma_at_index(d, q, seq![TAG_END_OBJECT], 0);
    lemma_parse_fields_bytes(d, p, e, seq![]);
    assert(Seq::<(Seq<char>, ValueModel)>::empty() + e =~= e);
    lemma_read_varint(d, q + 1, c, t);
}

proof fn lemma_array_bytes(d: Seq<u8>, pos: int, s: Seq<ValueModel>, n: nat)
    requires
        encodable(ValueModel::Array(s)),
        at(d, pos, body_bytes(ValueModel::Array(s)) + varint(n)),
        n <= u64::MAX,
    ensures
        parse_value(d, pos) == closed_by(ValueModel::Array(s), n, pos),
    decreases s, 1int,
{
    let t = crate::wire::TAG_BEGIN_ARRAY;
    let a = seq![t] + varint(s.len());
    let c = seq![TAG_END_ARRAY, 0u8];
    let p = pos + 1;
    lemma_at_split(d, pos, a + items_bytes(s) + c, varint(n));
    lemma_at_split(d, pos, a + items_bytes(s), c);
    lemma_at_split(d, pos, a, items_bytes(s));
    lemma_at_split(d, pos, seq![t], varint(s.len()));
    lemma_at_index(d, pos, seq![t], 0);
    lemma_read_varint(d, p, s.len(), t);
    let q = pos + a.len();
    let r = q + items_bytes(s).len();
    lemma_at_index(d, r, c, 0);
    lemma_at_index(d, r, c, 1);
    lemma_parse_items_bytes(d, q, s, TAG_END_ARRAY, seq![]);
    assert(Seq::<ValueModel>::empty() + s =~= s);
    lemma_read_varint(d, r + 2, n, t);
}

proof fn lemma_set_bytes(d: Seq<u8>, pos: int, s: Seq<ValueModel>, c: nat)
    requires
        encodable(ValueModel::JsSet(s)),
        at(d, pos, body_bytes(ValueModel::JsSet(s)) + varint(c)),
        c <= u64::MAX,
    ensures
        parse_value(d, pos) == closed_by(ValueModel::JsSet(s), c, pos),
    decreases s, 1int,
{
    let t = crate::wire::TAG_BEGIN_SET;
    let a = seq![t] + items_bytes(s);
    let p = pos + 1;
    lemma_at_split(d, pos, a + seq![TAG_END_SET], varint(c));
    lemma_at_split(d, pos, a, seq![TAG_END_SET]);
    lemma_at_split(d, pos, seq![t], items_bytes(s));
    lemma_at_index(d, pos, seq![t], 0);
    let q = p + items_bytes(s).len();
    lemma_at_index(d, q, seq![TAG_END_SET], 0);
    lemma_parse_items_bytes(d, p, s, TAG_END_SET, seq![]);
    assert(Seq::<ValueModel>::empty() + s =~= s);
    lemma_read_varint(d, q + 1, c, t);
}

proof fn lemma_map_bytes(d: Seq<u8>, pos: int, e: Seq<(ValueModel, ValueModel)>, c: nat)
    requires
        encodable(ValueModel::JsMap(e)),
        at(d, pos, body_bytes(ValueModel::JsMap(e)) + varint(c)),
        c <= u64::MAX,
    ensures
        parse_value(d, pos) == closed_by(ValueModel::JsMap(e), c, pos),
    decreases e, 1int,
{
    let t = crate::wire::TAG_BEGIN_MAP;
    let a = seq![t] + pairs_bytes(e);
    let p = pos + 1;
    lemma_at_split(d, pos, a + seq![TAG_END_MAP], varint(c));
    lemma_at_split(d, pos, a, seq![TAG_END_MAP]);
    lemma_at_split(d, pos, seq![t], pairs_bytes(e));
    lemma_at_index(d, pos, seq![t], 0);
    let q = p + pairs_bytes(e).len();
    lemma_at_index(d, q, seq![TAG_END_MAP], 0);
    lemma_parse_pairs_bytes(d, p, e, seq![]);
    assert(Seq::<(ValueModel, ValueModel)>::empty() + e =~= e);
    lemma_read_varint(d, q + 1, c, t);
}

proof fn lemma_error_field_bytes(
    d: Seq<u8>,
    pos: int,
    marker: u8,
    field: Option<Seq<char>>,
    next: u8,
)
    requires
        field_ok(field),
        at(d, pos, error_field_bytes(marker, field) + seq![next]),
        marker != next,
    ensures
        crate::read::read_error_field(d, pos, marker) == Ok::<
            (Option<Seq<char>>, int),
            crate::error::Error,
        >((field, pos + error_field_bytes(marker, field).len())),
{
    let f = error_field_bytes(marker, field);
    lemma_at_split(d, pos, f, seq![next]);
    match field {
        Some(s) => {
            lemma_at_split(d, pos, seq![marker, TAG_ONE_BYTE_STRING], text_bytes(s));
            lemma_at_index(d, pos, seq![marker, TAG_ONE_BYTE_STRING], 0);
            lemma_at_index(d, pos, seq![marker, TAG_ONE_BYTE_STRING], 1);
            lemma_read_text(d, pos + 2, s, crate::wire::TAG_ERROR);
        },
        None => {
            lemma_at_index(d, pos, seq![next], 0);
        },
    }
}

/// The payload of an error value reads back, after its tag.
#[verifier::rlimit(60)]
proof fn lemma_read_error_bytes(
    d: Seq<u8>,
    p: int,
    ty: ErrorType,
    message: Option<Seq<char>>,
    stack: Option<Seq<char>>,
)
    requires
        field_ok(message),
        field_ok(stack),
        at(
            d,
            p,
            error_kind_bytes(ty) + error_field_bytes(TAG_ERROR_MESSAGE, message)
                + error_field_bytes(TAG_ERROR_STACK, stack) + seq![TAG_ERROR_END],
        ),
    ensures
        crate::read::read_error(d, p) == Ok::<(ValueModel, int), crate::error::Error>(
            (
                ValueModel::Error { ty, message, stack },
                p + error_kind_bytes(ty).len() + error_field_bytes(TAG_ERROR_MESSAGE, message).len()
                    + error_field_bytes(TAG_ERROR_STACK, stack).len() + 1,
            ),
        ),
{
    let k = error_kind_bytes(ty);
    let fm = error_field_bytes(TAG_ERROR_MESSAGE, message);
    let fs = error_field_bytes(TAG_ERROR_STACK, stack);
    let end = seq![TAG_ERROR_END];
    lemma_at_split(d, p, k + fm + fs, end);
    lemma_at_split(d, p, k + fm, fs);
    lemma_at_split(d, p, k, fm);
    let q = p + k.len();
    let r = q + fm.len();
    let u = r + fs.len();
    lemma_at_index(d, u, end, 0);
    assert(d.subrange(r, u + 1) =~= fs + end);
    lemma_error_field_bytes(d, r, TAG_ERROR_STACK, stack, TAG_ERROR_END);
    let after_m = if fs.len() > 0 {
        TAG_ERROR_STACK
    } else {
        TAG_ERROR_END
    };
    assert(d[r] == after_m) by {
        if fs.len() > 0 {
            lemma_at_index(d, r, fs, 0);
        }
    }
    assert(d.subrange(q, r + 1) =~= fm + seq![after_m]);
    lemma_error_field_bytes(d, q, TAG_ERROR_MESSAGE, message, after_m);
    if k.len() > 0 {
        lemma_at_index(d, p, k, 0);
    } else {
        let first = if fm.len() > 0 {
            TAG_ERROR_MESSAGE
        } else {
            after_m
        };
        assert(d[q] == first) by {
            if fm.len() > 0 {
                lemma_at_index(d, q, fm, 0);
            }
        }
        assert(error_type_of(first) is None);
    }
}

proof fn lemma_parse_error_bytes(
    d: Seq<u8>,
    pos: int,
    ty: ErrorType,
    message: Option<Seq<char>>,
    stack: Option<Seq<char>>,
)
    requires
        field_ok(message),
        field_ok(stack),
        at(d, pos, value_bytes(ValueModel::Error { ty, message, stack })),
    ensures
        parse_value(d, pos) == Ok::<(ValueModel, int), crate::error::Error>(
            (
                ValueModel::Error { ty, message, stack },
                pos + value_bytes(ValueModel::Error { ty, message, stack }).len(),
            ),
        ),
{
    let t = seq![crate::wire::TAG_ERROR];
    let rest = error_kind_bytes(ty) + error_field_bytes(TAG_ERROR_MESSAGE, message)
        + error_field_bytes(TAG_ERROR_STACK, stack) + seq![TAG_ERROR_END];
    assert(value_bytes(ValueModel::Error { ty, message, stack }) =~= t + rest);
    lemma_at_split(d, pos, t, rest);
    lemma_at_index(d, pos, t, 0);
    lemma_read_error_bytes(d, pos + 1, ty, message, stack);
}

/// A run of values reads back in order.
#[verifier::rlimit(60)]
pub proof fn lemma_parse_items_bytes(
    d: Seq<u8>,
    pos: int,
    s: Seq<ValueModel>,
    end_tag: u8,
    acc: Seq<ValueModel>,
)
    requires
        items_encodable(s),
        at(d, pos, items_bytes(s)),
        ends_value(d, pos + items_bytes(s).len()),
        end_tag == TAG_END_ARRAY || end_tag == TAG_END_SET,
    ensures
        parse_items(d, pos, end_tag, acc) == parse_items(
            d,
            pos + items_bytes(s).len(),
            end_tag,
            acc + s,
        ),
    decreases s, 0int,
{
    if s.len() == 0 {
        assert(acc + s =~= acc);
    } else {
        let init = s.drop_last();
        let x = s.last();
        let mid = pos + items_bytes(init).len();
        lemma_at_split(d, pos, items_bytes(init), value_bytes(x));
        lemma_first_byte(x);
        lemma_at_index(d, mid, value_bytes(x), 0);
        lemma_parse_items_bytes(d, pos, init, end_tag, acc);
        lemma_parse_value_bytes(d, mid, x);
        assert((acc + init).push(x) =~= acc + s);
    }
}

/// One object field reads back: its key, then its value.
#[verifier::rlimit(60)]
proof fn lemma_field_bytes(
    d: Seq<u8>,
    pos: int,
    k: Seq<char>,
    v: ValueModel,
    acc: Seq<(Seq<char>, ValueModel)>,
)
    requires
        text_ok(k),
        encodable(v),
        at(d, pos, seq![TAG_ONE_BYTE_STRING] + text_bytes(k) + value_bytes(v)),
        ends_value(d, pos + 1 + text_bytes(k).len() + value_bytes(v).len()),
    ensures
        parse_fields(d, pos, acc) == parse_fields(
            d,
            pos + 1 + text_bytes(k).len() + value_bytes(v).len(),
            acc.push((k, v)),
        ),
    decreases v, 3int,
{
    let key = seq![TAG_ONE_BYTE_STRING] + text_bytes(k);
    lemma_at_split(d, pos, key, value_bytes(v));
    lemma_at_split(d, pos, seq![TAG_ONE_BYTE_STRING], text_bytes(k));
    lemma_at_index(d, pos, key, 0);
    lemma_read_text(d, pos + 1, k, TAG_ONE_BYTE_STRING);
    lemma_parse_value_bytes(d, pos + key.len(), v);
}

/// The fields of an object read back in order.
pub proof fn lemma_parse_fields_bytes(
    d: Seq<u8>,
    pos: int,
    e: Seq<(Seq<char>, ValueModel)>,
    acc: Seq<(Seq<char>, ValueModel)>,
)
    requires
        entries_encodable(e),
        at(d, pos, entries_bytes(e)),
        ends_value(d, pos + entries_bytes(e).len()),
    ensures
        parse_fields(d, pos, acc) == parse_fields(d, pos + entries_bytes(e).len(), acc + e),
    decreases e, 0int,
{
    if e.len() == 0 {
        assert(acc + e =~= acc);
    } else {
        let init = e.drop_last();
        let (k, v) = e.last();
        let mid = pos + entries_bytes(init).len();
        let field = seq![TAG_ONE_BYTE_STRING] + text_bytes(k) + value_bytes(v);
        assert(entries_bytes(e) =~= entries_bytes(init) + field);
        lemma_at_split(d, pos, entries_bytes(init), field);
        lemma_at_index(d, mid, field, 0);
        lemma_parse_fields_bytes(d, pos, init, acc);
        lemma_field_bytes(d, mid, k, v, acc + init);
        assert((acc + init).push((k, v)) =~= acc + e);
    }
}

/// The entries of a map read back in order.
#[verifier::rlimit(60)]
pub proof fn lemma_parse_pairs_bytes(
    d: Seq<u8>,
    pos: int,
    e: Seq<(ValueModel, ValueModel)>,
    acc: Seq<(ValueModel, ValueModel)>,
)
    requires
        pairs_encodable(e),
        at(d, pos, pairs_bytes(e)),
        ends_value(d, pos + pairs_bytes(e).len()),
    ensures
        parse_pairs(d, pos, acc) == parse_pairs(d, pos + pairs_bytes(e).len(), acc + e),
    decreases e, 0int,
{
    if e.len() == 0 {
        assert(acc + e =~= acc);
    } else {
        let init = e.drop_last();
        let (k, v) = e.last();
        let mid = pos + pairs_bytes(init).len();
        lemma_at_split(d, pos, pairs_bytes(init) + value_bytes(k), value_bytes(v));
        lemma_at_split(d, pos, pairs_bytes(init), value_bytes(k));
        lemma_first_byte(k);
        lemma_first_byte(v);
        lemma_at_index(d, mid, value_bytes(k), 0);
        lemma_at_index(d, mid + value_bytes(k).len(), value_bytes(v), 0);
        lemma_parse_pairs_bytes(d, pos, init, acc);
        lemma_parse_value_bytes(d, mid, k);
        lemma_parse_value_bytes(d, mid + value_bytes(k).len(), v);
        assert((acc + init).push((k, v)) =~= acc + e);
    }
}

/// Round trip: the stream written for a value the codec carries whole (no
/// boxed bigint; lengths and counts that fit their fields) decodes to that
/// value's contents exactly.
pub proof fn lemma_round_trip(v: Value)
    requires
        encodable(v.model()),
    ensures
        decoded(header_bytes() + value_bytes(v.model())) == Ok::<ValueModel, crate::error::Error>(
            v.model(),
        ),
{
    let m = v.model();
    lemma_strip_header(value_bytes(m));
    lemma_parse_value_bytes(value_bytes(m), 0, m);
}

/// Count integrity: a composite whose closing count is replaced by any other
/// count fails to decode with a count mismatch, reported at the composite's
/// tag, the first byte after the header.
pub proof fn lemma_count_integrity(m: ValueModel, c: nat)
    requires
        is_composite(m),
        encodable(m),
        c != count_of(m),
        c <= u64::MAX,
    ensures
        decoded(header_bytes() + (body_bytes(m) + varint(c))) == Err::<
            ValueModel,
            crate::error::Error,
        >(
            crate::error::Error::CountMismatch {
                declared: c as u64,
                actual: count_of(m) as u64,
                at: 2,
            },
        ),
{
    let b = body_bytes(m) + varint(c);
    lemma_strip_header(b);
    lemma_count_integrity_at(b, 0, m, c);
    lemma_decoded_with_header(b);
}

/// Decoding a stream written with the header reads its payload from the
/// start, and reports offsets two bytes further on.
proof fn lemma_decoded_with_header(b: Seq<u8>)
    ensures
        decoded(header_bytes() + b) == match parse_value(b, 0) {
            Err(e) => Err::<ValueModel, crate::error::Error>(e.shifted(2)),
            Ok((v, _)) => Ok(v),
        },
{
    lemma_strip_header(b);
    assert((header_bytes() + b).len() - b.len() == 2);
}

/// A stream written with the header has the written bytes as its payload,
/// and they stand at its start.
proof fn lemma_strip_header(b: Seq<u8>)
    ensures
        crate::read::payload(header_bytes() + b) == Ok::<Seq<u8>, crate::error::Error>(b),
        at(b, 0, b),
{
    let d = header_bytes() + b;
    assert(d.subrange(2, d.len() as int) =~= b);
    assert(b.subrange(0, b.len() as int) =~= b);
}

/// Count integrity wherever a composite stands in the input: reading a value
/// where a composite's bytes stand, closed by the count `c`, yields the
/// composite when `c` is its count and a count mismatch at its tag otherwise.
pub proof fn lemma_count_integrity_at(d: Seq<u8>, pos: int, m: ValueModel, c: nat)
    requires
        is_composite(m),
        encodable(m),
        at(d, pos, body_bytes(m) + varint(c)),
        c <= u64::MAX,
    ensures
        parse_value(d, pos) == closed_by(m, c, pos),
{
    match m {
        ValueModel::Object(e) => lemma_object_bytes(d, pos, e, c),
        ValueModel::Array(s) => lemma_array_bytes(d, pos, s, c),
        ValueModel::JsSet(s) => lemma_set_bytes(d, pos, s, c),
        ValueModel::JsMap(e) => lemma_map_bytes(d, pos, e, c),
        _ => {},
    }
}

} // verus!
