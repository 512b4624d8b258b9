use vstd::prelude::*;
use vstd::utf8::encode_utf8;
use crate::error::Error;
use crate::value::{
    entries_model, items_model, pairs_model, text_model, ArrayBufferViewType, ErrorType, Value,
    ValueModel,
};
use crate::wire::{
    bigint_header, error_field_bytes, error_kind_bytes, header_bytes, le_bytes, magnitude,
    text_bytes, value_bytes, fits, items_fit, lemma_items_fit_index, lemma_entries_fit_index, lemma_pairs_fit_index, entries_fit, pairs_fit, items_bytes, entries_bytes, pairs_bytes, TAG_BEGIN_ARRAY,
    TAG_END_ARRAY, TAG_BEGIN_OBJECT, TAG_END_OBJECT, TAG_BEGIN_MAP, TAG_END_MAP, TAG_BEGIN_SET,
    TAG_END_SET, varint, varint_i64, varint_u64, view_code, zigzag, TAG_ARRAY_BUFFER,
    TAG_ARRAY_BUFFER_TRANSFER, TAG_ARRAY_BUFFER_VIEW, TAG_BIGINT, TAG_BIGINT_OBJECT, TAG_DATE,
    TAG_DOUBLE, TAG_ERROR, TAG_ERROR_END, TAG_ERROR_MESSAGE, TAG_ERROR_STACK, TAG_FALSE,
    TAG_INT32, TAG_NULL, TAG_NUMBER_OBJECT, TAG_OBJECT_REFERENCE, TAG_ONE_BYTE_STRING,
    TAG_REGEXP, TAG_SHARED_ARRAY_BUFFER, TAG_STRING_OBJECT, TAG_TRUE, TAG_TWO_BYTE_STRING,
    TAG_UINT32, TAG_UNDEFINED, TAG_VERSION,
};

verus! {

/// The format version written after the leading `0xFF` of every stream.
pub const FORMAT_VERSION: u8 = 0xD0;

/// A composite opened through the adapter and not yet closed: where its
/// length goes if it was not known up front, the length declared when it was
/// opened, and the elements counted since.
#[derive(Clone, Copy)]
pub struct Frame {
    pub start: usize,
    pub declared: Option<usize>,
    pub count: usize,
}

/// `new` holds `old` as its beginning: only appended to.
pub open spec fn extends(new: Seq<u8>, old: Seq<u8>) -> bool {
    old.len() <= new.len() && new.take(old.len() as int) == old
}

pub proof fn lemma_extends_trans(a: Seq<u8>, b: Seq<u8>, c: Seq<u8>)
    requires
        extends(b, a),
        extends(c, b),
    ensures
        extends(c, a),
{
    assert(c.take(a.len() as int) =~= c.take(b.len() as int).take(a.len() as int));
}

pub proof fn lemma_extends_append(a: Seq<u8>, b: Seq<u8>)
    ensures
        extends(a + b, a),
{
    assert((a + b).take(a.len() as int) =~= a);
}

/// An encoder: a byte buffer that starts with the stream header, and the
/// composites opened through the adapter methods and not yet closed.
pub struct Serializer {
    data: Vec<u8>,
    frames: Vec<Frame>,
}

impl Serializer {
    /// The bytes written so far, header included.
    pub closed spec fn written(&self) -> Seq<u8> {
        self.data@
    }

    /// The composites opened through the adapter and not yet closed, innermost last.
    pub closed spec fn open_frames(&self) -> Seq<Frame> {
        self.frames@
    }

    /// Every open composite's length position lies in what was written, the
    /// inner ones no earlier than the outer ones.
    pub closed spec fn wf(&self) -> bool {
        &&& forall|i: int| 0 <= i < self.frames@.len() ==> #[trigger] self.frames@[i].start
            <= self.data@.len()
        &&& forall|i: int, j: int|
            0 <= i < j < self.frames@.len() ==> #[trigger] self.frames@[i].start
                <= #[trigger] self.frames@[j].start
    }

    /// A serializer holding only the header.
    pub fn new() -> (r: Self)
        ensures
            r.written() == header_bytes(),
            r.open_frames().len() == 0,
            r.wf(),
    {
        Serializer { data: vec![TAG_VERSION, FORMAT_VERSION], frames: Vec::new() }
    }

    /// The bytes written so far.
    pub fn into_bytes(self) -> (r: Vec<u8>)
        ensures
            r@ == self.written(),
    {
        self.data
    }

    fn write_varint(&mut self, n: u64)
        ensures
            final(self).open_frames() == old(self).open_frames(),
            final(self).written() == old(self).written() + varint(n as nat),
    {
        let b = varint_u64(n);
        self.data.extend_from_slice(b.as_slice());
    }

    fn write_text(&mut self, s: &String)
        ensures
            final(self).open_frames() == old(self).open_frames(),
            final(self).written() == old(self).written() + text_bytes(s@),
    {
        let b = s.as_str().as_bytes();
        self.write_varint(b.len() as u64);
        self.data.extend_from_slice(b);
    }

    fn write_double_bytes(&mut self, tag: u8, d: &[u8; 8])
        ensures
            final(self).open_frames() == old(self).open_frames(),
            final(self).written() == old(self).written() + seq![tag] + d@,
    {
        self.data.push(tag);
        self.data.extend_from_slice(d.as_slice());
    }

    pub fn write_undefined(&mut self)
        ensures
            final(self).open_frames() == old(self).open_frames(),
            final(self).written() == old(self).written() + value_bytes(ValueModel::Undefined),
    {
        self.data.push(TAG_UNDEFINED);
    }

    pub fn write_null(&mut self)
        ensures
            final(self).open_frames() == old(self).open_frames(),
            final(self).written() == old(self).written() + value_bytes(ValueModel::Null),
    {
        self.data.push(TAG_NULL);
    }

    pub fn write_boolean(&mut self, value: bool)
        ensures
            final(self).open_frames() == old(self).open_frames(),
            final(self).written() == old(self).written() + value_bytes(ValueModel::Boolean(value)),
    {
        if value {
            self.data.push(TAG_TRUE);
        } else {
            self.data.push(TAG_FALSE);
        }
    }

    pub fn write_int32(&mut self, value: i32)
        ensures
            final(self).open_frames() == old(self).open_frames(),
            final(self).written() == old(self).written() + value_bytes(ValueModel::Int32(value)),
    {
        self.data.push(TAG_INT32);
        let b = varint_i64(value as i64);
        self.data.extend_from_slice(b.as_slice());
    }

    pub fn write_uint32(&mut self, value: u32)
        ensures
            final(self).open_frames() == old(self).open_frames(),
            final(self).written() == old(self).written() + value_bytes(ValueModel::Uint32(value)),
    {
        self.data.push(TAG_UINT32);
        self.write_varint(value as u64);
    }

    /// Writes a double given as its eight bytes in host order.
    pub fn write_double(&mut self, value: &[u8; 8])
        ensures
            final(self).open_frames() == old(self).open_frames(),
            final(self).written() == old(self).written() + value_bytes(ValueModel::Double(value@)),
    {
        self.write_double_bytes(TAG_DOUBLE, value);
    }

    /// Eight bytes of `m`, least significant first.
    fn write_le8(&mut self, m: u64)
        ensures
            final(self).open_frames() == old(self).open_frames(),
            final(self).written() == old(self).written() + le_bytes(m as nat, 8),
    {
        let ghost goal = self.data@ + le_bytes(m as nat, 8);
        let mut m = m;
        let mut i: usize = 0;
        while i < 8
            invariant
                i <= 8,
                self.data@ + le_bytes(m as nat, (8 - i) as nat) == goal,
                self.frames@ == old(self).frames@,
            decreases 8 - i,
        {
            assert(le_bytes(m as nat, (8 - i) as nat) == seq![(m % 256) as u8] + le_bytes(
                (m / 256) as nat,
                (8 - i - 1) as nat,
            ));
            self.data.push((m % 256) as u8);
            m = m / 256;
            i = i + 1;
        }
        assert(le_bytes(m as nat, 0) == Seq::<u8>::empty());
    }

    pub fn write_bigint(&mut self, value: i64)
        ensures
            final(self).open_frames() == old(self).open_frames(),
            final(self).written() == old(self).written() + value_bytes(ValueModel::BigInt(value)),
    {
        self.data.push(TAG_BIGINT);
        let m: u64 = if value < 0 {
            (-(value + 1)) as u64 + 1
        } else {
            value as u64
        };
        if value < 0 {
            self.write_varint(17);
        } else {
            self.write_varint(16);
        }
        self.write_le8(m);
    }

    pub fn write_string(&mut self, value: &String, utf16: bool)
        ensures
            final(self).open_frames() == old(self).open_frames(),
            final(self).written() == old(self).written() + seq![
                if utf16 { TAG_TWO_BYTE_STRING } else { TAG_ONE_BYTE_STRING },
            ] + text_bytes(value@),
    {
        if utf16 {
            self.data.push(TAG_TWO_BYTE_STRING);
        } else {
            self.data.push(TAG_ONE_BYTE_STRING);
        }
        self.write_text(value);
    }

    pub fn write_object_reference(&mut self, id: u32)
        ensures
            final(self).open_frames() == old(self).open_frames(),
            final(self).written() == old(self).written() + value_bytes(
                ValueModel::ObjectReference { id },
            ),
    {
        self.data.push(TAG_OBJECT_REFERENCE);
        self.write_varint(id as u64);
    }

    /// Writes a date given as the eight host-order bytes of its millisecond count.
    pub fn write_date(&mut self, value: &[u8; 8])
        ensures
            final(self).open_frames() == old(self).open_frames(),
            final(self).written() == old(self).written() + value_bytes(ValueModel::Date(value@)),
    {
        self.write_double_bytes(TAG_DATE, value);
    }

    pub fn write_number_object(&mut self, value: &[u8; 8])
        ensures
            final(self).open_frames() == old(self).open_frames(),
            final(self).written() == old(self).written() + value_bytes(
                ValueModel::NumberObject(value@),
            ),
    {
        self.write_double_bytes(TAG_NUMBER_OBJECT, value);
    }

    pub fn write_bigint_object(&mut self)
        ensures
            final(self).open_frames() == old(self).open_frames(),
            final(self).written() == old(self).written() + value_bytes(ValueModel::BigIntObject),
    {
        self.data.push(TAG_BIGINT_OBJECT);
    }

    pub fn write_string_object(&mut self, value: &String)
        ensures
            final(self).open_frames() == old(self).open_frames(),
            final(self).written() == old(self).written() + seq![TAG_STRING_OBJECT] + text_bytes(
                value@,
            ),
    {
        self.data.push(TAG_STRING_OBJECT);
        self.write_text(value);
    }

    pub fn write_regexp(&mut self, expr: &String, flags: u32)
        ensures
            final(self).open_frames() == old(self).open_frames(),
            final(self).written() == old(self).written() + seq![TAG_REGEXP] + text_bytes(expr@)
                + varint(flags as nat),
    {
        self.data.push(TAG_REGEXP);
        self.write_text(expr);
        self.write_varint(flags as u64);
    }

    /// Writes a buffer; fails, writing nothing, when its length does not fit 32 bits.
    pub fn write_array_buffer(&mut self, value: &Vec<u8>) -> (r: Result<(), Error>)
        ensures
            final(self).open_frames() == old(self).open_frames(),
            r is Ok <==> value@.len() <= u32::MAX,
            r is Ok ==> final(self).written() == old(self).written() + seq![TAG_ARRAY_BUFFER]
                + varint(value@.len()) + value@,
            r is Err ==> final(self).written() == old(self).written() && r == Err::<(), Error>(
                Error::SizeLimit { len: value.len() },
            ),
    {
        if value.len() > u32::MAX as usize {
            return Err(Error::SizeLimit { len: value.len() });
        }
        self.data.push(TAG_ARRAY_BUFFER);
        self.write_varint(value.len() as u64);
        self.data.extend_from_slice(value.as_slice());
        Ok(())
    }

    pub fn write_array_buffer_transfer(&mut self, transfer_id: u32)
        ensures
            final(self).open_frames() == old(self).open_frames(),
            final(self).written() == old(self).written() + value_bytes(
                ValueModel::ArrayBufferTransfer { transfer_id },
            ),
    {
        self.data.push(TAG_ARRAY_BUFFER_TRANSFER);
        self.write_varint(transfer_id as u64);
    }

    /// Writes the backing buffer, then the view over it.
    pub fn write_array_buffer_view(
        &mut self,
        ty: ArrayBufferViewType,
        byte_offset: u32,
        byte_length: u32,
        buffer: &Vec<u8>,
    ) -> (r: Result<(), Error>)
        ensures
            final(self).open_frames() == old(self).open_frames(),
            r is Ok <==> buffer@.len() <= u32::MAX,
            r is Ok ==> final(self).written() == old(self).written() + seq![TAG_ARRAY_BUFFER]
                + varint(buffer@.len()) + buffer@ + seq![TAG_ARRAY_BUFFER_VIEW, view_code(ty)]
                + varint(byte_offset as nat) + varint(byte_length as nat),
            r is Err ==> final(self).written() == old(self).written() && r == Err::<(), Error>(
                Error::SizeLimit { len: buffer.len() },
            ),
    {
        self.write_array_buffer(buffer)?;
        self.data.push(TAG_ARRAY_BUFFER_VIEW);
        let code: u8 = match ty {
            ArrayBufferViewType::Int8Array => 0x62,
            ArrayBufferViewType::Uint8Array => 0x42,
            ArrayBufferViewType::Uint8ClampedArray => 0x43,
            ArrayBufferViewType::Int16Array => 0x77,
            ArrayBufferViewType::Uint16Array => 0x57,
            ArrayBufferViewType::Int32Array => 0x64,
            ArrayBufferViewType::Uint32Array => 0x44,
            ArrayBufferViewType::Float32Array => 0x66,
            ArrayBufferViewType::Float64Array => 0x46,
            ArrayBufferViewType::BigInt64Array => 0x71,
            ArrayBufferViewType::BigUint64Array => 0x51,
            ArrayBufferViewType::DataView => 0x3F,
        };
        self.data.push(code);
        self.write_varint(byte_offset as u64);
        self.write_varint(byte_length as u64);
        Ok(())
    }

    pub fn write_shared_array_buffer(&mut self, transfer_id: u32)
        ensures
            final(self).open_frames() == old(self).open_frames(),
            final(self).written() == old(self).written() + value_bytes(
                ValueModel::SharedArrayBuffer { transfer_id },
            ),
    {
        self.data.push(TAG_SHARED_ARRAY_BUFFER);
        self.write_varint(transfer_id as u64);
    }

    fn write_error_field(&mut self, marker: u8, field: &Option<String>)
        ensures
            final(self).open_frames() == old(self).open_frames(),
            final(self).written() == old(self).written() + error_field_bytes(marker, text_model(*field)),
    {
        if let Some(s) = field {
            self.data.push(marker);
            self.write_string(s, false);
        }
    }

    pub fn write_error(&mut self, ty: ErrorType, message: &Option<String>, stack: &Option<String>)
        ensures
            final(self).open_frames() == old(self).open_frames(),
            final(self).written() == old(self).written() + seq![TAG_ERROR] + error_kind_bytes(ty)
                + error_field_bytes(TAG_ERROR_MESSAGE, text_model(*message)) + error_field_bytes(
                TAG_ERROR_STACK,
                text_model(*stack),
            ) + seq![TAG_ERROR_END],
    {
        self.data.push(TAG_ERROR);
        match ty {
            ErrorType::EvalError => self.data.push(0x45),
            ErrorType::RangeError => self.data.push(0x52),
            ErrorType::ReferenceError => self.data.push(0x46),
            ErrorType::SyntaxError => self.data.push(0x43),
            ErrorType::TypeError => self.data.push(0x54),
            ErrorType::UriError => self.data.push(0x55),
            ErrorType::Unknown => {},
        }
        self.write_error_field(TAG_ERROR_MESSAGE, message);
        self.write_error_field(TAG_ERROR_STACK, stack);
        self.data.push(TAG_ERROR_END);
    }

    /// Writes an object: its fields in order, each a one-byte string key and a value.
    #[verifier::rlimit(40)]
    pub fn write_object(&mut self, entries: &Vec<(String, Value)>) -> (r: Result<(), Error>)
        ensures
            r matches Err(e) ==> e is SizeLimit,
            extends(final(self).written(), old(self).written()),
            final(self).open_frames() == old(self).open_frames(),
            r is Ok <==> fits(ValueModel::Object(entries_model(entries@))),
            r is Ok ==> final(self).written() == old(self).written() + value_bytes(
                ValueModel::Object(entries_model(entries@)),
            ),
        decreases entries, 0nat,
    {
        let n = entries.len();
        self.data.push(TAG_BEGIN_OBJECT);
        let ghost start = self.data@;
        assert(start.take(old(self).data@.len() as int) =~= old(self).data@);
        let mut i: usize = 0;
        while i < n
            invariant
                i <= n,
                n == entries@.len(),
                self.data@ == start + entries_bytes(entries_model(entries@).take(i as int)),
                extends(start, old(self).data@),
                self.frames@ == old(self).frames@,
                entries_fit(entries_model(entries@).take(i as int)),
            decreases n - i,
        {
            self.data.push(TAG_ONE_BYTE_STRING);
            self.write_text(&entries[i].0);
            proof {
                assert(decreases_to!(entries => entries@[i as int].1));
            }
            let ghost mid = self.data@;
            match self.write_value(&entries[i].1) {
                Ok(()) => {},
                Err(e) => {
                    proof {
                        assert(mid.take(start.len() as int) =~= start);
                        lemma_extends_trans(old(self).data@, start, mid);
                        lemma_extends_trans(old(self).data@, mid, self.data@);
                    }
                    proof {
                        lemma_entries_fit_index(entries_model(entries@), i as int);
                    }
                    return Err(e);
                },
            }
            assert(entries_model(entries@).take(i + 1).drop_last() == entries_model(entries@).take(i as int));
            i = i + 1;
        }
        assert(entries_model(entries@).take(n as int) == entries_model(entries@));
        self.data.push(TAG_END_OBJECT);
        self.write_varint(n as u64);
        assert(self.data@.take(old(self).data@.len() as int) =~= old(self).data@);
        Ok(())
    }

    /// Writes the values of a run one after the other.
    #[verifier::rlimit(40)]
    fn write_items(&mut self, items: &Vec<Value>) -> (r: Result<(), Error>)
        ensures
            r matches Err(e) ==> e is SizeLimit,
            extends(final(self).written(), old(self).written()),
            final(self).open_frames() == old(self).open_frames(),
            r is Ok <==> items_fit(items_model(items@)),
            r is Ok ==> final(self).written() == old(self).written() + items_bytes(items_model(items@)),
        decreases items, 0nat,
    {
        let n = items.len();
        let ghost start = self.data@;
        assert(start.take(start.len() as int) =~= start);
        let mut i: usize = 0;
        while i < n
            invariant
                i <= n,
                n == items@.len(),
                self.data@ == start + items_bytes(items_model(items@).take(i as int)),
                extends(start, old(self).data@),
                self.frames@ == old(self).frames@,
                items_fit(items_model(items@).take(i as int)),
            decreases n - i,
        {
            proof {
                assert(decreases_to!(items => items@[i as int]));
            }
            let ghost mid = self.data@;
            match self.write_value(&items[i]) {
                Ok(()) => {},
                Err(e) => {
                    proof {
                        assert(mid.take(start.len() as int) =~= start);
                        lemma_extends_trans(old(self).data@, start, mid);
                        lemma_extends_trans(old(self).data@, mid, self.data@);
                    }

                    proof {
                        lemma_items_fit_index(items_model(items@), i as int);
                    }
                    return Err(e);
                },
            }
            assert(items_model(items@).take(i + 1).drop_last() == items_model(items@).take(i as int));
            i = i + 1;
        }
        assert(items_model(items@).take(n as int) == items_model(items@));
        assert(self.data@.take(old(self).data@.len() as int) =~= old(self).data@);
        Ok(())
    }

    /// Writes an array whose length is known: the length leads and closes it.
    pub fn write_array(&mut self, items: &Vec<Value>) -> (r: Result<(), Error>)
        ensures
            r matches Err(e) ==> e is SizeLimit,
            extends(final(self).written(), old(self).written()),
            final(self).open_frames() == old(self).open_frames(),
            r is Ok <==> fits(ValueModel::Array(items_model(items@))),
            r is Ok ==> final(self).written() == old(self).written() + value_bytes(
                ValueModel::Array(items_model(items@)),
            ),
        decreases items, 1nat,
    {
        let n = items.len();
        self.data.push(TAG_BEGIN_ARRAY);
        self.write_varint(n as u64);
        let ghost mid = self.data@;
        assert(mid.take(old(self).data@.len() as int) =~= old(self).data@);
        match self.write_items(items) {
            Ok(()) => {},
            Err(e) => {
                proof {
                    lemma_extends_trans(old(self).data@, mid, self.data@);
                }
                return Err(e);
            },
        }
        self.data.push(TAG_END_ARRAY);
        self.data.push(0);
        self.write_varint(n as u64);
        assert(self.data@.take(old(self).data@.len() as int) =~= old(self).data@);
        Ok(())
    }

    /// Writes a map: each key, then its value; the count closing it is twice the entries.
    #[verifier::rlimit(40)]
    pub fn write_map(&mut self, entries: &Vec<(Value, Value)>) -> (r: Result<(), Error>)
        ensures
            r matches Err(e) ==> e is SizeLimit,
            extends(final(self).written(), old(self).written()),
            final(self).open_frames() == old(self).open_frames(),
            r is Ok <==> fits(ValueModel::JsMap(pairs_model(entries@))),
            r is Ok ==> final(self).written() == old(self).written() + value_bytes(
                ValueModel::JsMap(pairs_model(entries@)),
            ),
        decreases entries, 0nat,
    {
        let n = entries.len();
        let count = match (n as u64).checked_mul(2) {
            Some(c) => c,
            None => {
                assert(self.data@.take(old(self).data@.len() as int) =~= old(self).data@);
                return Err(Error::SizeLimit { len: n });
            },
        };
        self.data.push(TAG_BEGIN_MAP);
        let ghost start = self.data@;
        assert(start.take(old(self).data@.len() as int) =~= old(self).data@);
        let mut i: usize = 0;
        while i < n
            invariant
                i <= n,
                n == entries@.len(),
                self.data@ == start + pairs_bytes(pairs_model(entries@).take(i as int)),
                extends(start, old(self).data@),
                self.frames@ == old(self).frames@,
                pairs_fit(pairs_model(entries@).take(i as int)),
            decreases n - i,
        {
            proof {
                assert(decreases_to!(entries => entries@[i as int].0));
                assert(decreases_to!(entries => entries@[i as int].1));
            }
            let ghost mid = self.data@;
            match self.write_value(&entries[i].0) {
                Ok(()) => {},
                Err(e) => {
                    proof {
                        assert(mid.take(start.len() as int) =~= start);
                        lemma_extends_trans(old(self).data@, start, mid);
                        lemma_extends_trans(old(self).data@, mid, self.data@);
                    }

                    proof {
                        lemma_pairs_fit_index(pairs_model(entries@), i as int);
                    }
                    return Err(e);
                },
            }
            let ghost mid2 = self.data@;
            match self.write_value(&entries[i].1) {
                Ok(()) => {},
                Err(e) => {
                    proof {
                        assert(mid2.take(start.len() as int) =~= start);
                        lemma_extends_trans(old(self).data@, start, mid2);
                        lemma_extends_trans(old(self).data@, mid2, self.data@);
                    }
                    proof {
                        lemma_pairs_fit_index(pairs_model(entries@), i as int);
                    }
                    return Err(e);
                },
            }
            assert(pairs_model(entries@).take(i + 1).drop_last() == pairs_model(entries@).take(i as int));
            i = i + 1;
        }
        assert(pairs_model(entries@).take(n as int) == pairs_model(entries@));
        self.data.push(TAG_END_MAP);
        self.write_varint(count);
        assert(self.data@.take(old(self).data@.len() as int) =~= old(self).data@);
        Ok(())
    }

    /// Writes a set: its elements, then their count.
    pub fn write_set(&mut self, items: &Vec<Value>) -> (r: Result<(), Error>)
        ensures
            r matches Err(e) ==> e is SizeLimit,
            extends(final(self).written(), old(self).written()),
            final(self).open_frames() == old(self).open_frames(),
            r is Ok <==> fits(ValueModel::JsSet(items_model(items@))),
            r is Ok ==> final(self).written() == old(self).written() + value_bytes(
                ValueModel::JsSet(items_model(items@)),
            ),
        decreases items, 1nat,
    {
        let n = items.len();
        self.data.push(TAG_BEGIN_SET);
        let ghost mid = self.data@;
        assert(mid.take(old(self).data@.len() as int) =~= old(self).data@);
        match self.write_items(items) {
            Ok(()) => {},
            Err(e) => {
                proof {
                    lemma_extends_trans(old(self).data@, mid, self.data@);
                }
                return Err(e);
            },
        }
        self.data.push(TAG_END_SET);
        self.write_varint(n as u64);
        assert(self.data@.take(old(self).data@.len() as int) =~= old(self).data@);
        Ok(())
    }

    /// Writes any value; fails only where a buffer length or a map count does
    /// not fit its field.
    #[verifier::rlimit(60)]
    pub fn write_value(&mut self, value: &Value) -> (r: Result<(), Error>)
        ensures
            r matches Err(e) ==> e is SizeLimit,
            extends(final(self).written(), old(self).written()),
            final(self).open_frames() == old(self).open_frames(),
            r is Ok <==> fits(value.model()),
            r is Ok ==> final(self).written() == old(self).written() + value_bytes(value.model()),
        decreases value, 2nat,
    {
        let r: Result<(), Error> = match value {
            Value::Undefined => {
                self.write_undefined();
                Ok(())
            },
            Value::Null => {
                self.write_null();
                Ok(())
            },
            Value::Boolean(b) => {
                self.write_boolean(*b);
                Ok(())
            },
            Value::Int32(i) => {
                self.write_int32(*i);
                Ok(())
            },
            Value::Uint32(u) => {
                self.write_uint32(*u);
                Ok(())
            },
            Value::Double(d) => {
                self.write_double(d);
                Ok(())
            },
            Value::BigInt(i) => {
                self.write_bigint(*i);
                Ok(())
            },
            Value::String(s, utf16) => {
                self.write_string(s, *utf16);
                Ok(())
            },
            Value::ObjectReference { id } => {
                self.write_object_reference(*id);
                Ok(())
            },
            Value::Object(entries) => {
                self.write_object(entries)
            },
            Value::Array(items) => {
                self.write_array(items)
            },
            Value::Date(d) => {
                self.write_date(d);
                Ok(())
            },
            Value::NumberObject(d) => {
                self.write_number_object(d);
                Ok(())
            },
            Value::BigIntObject() => {
                self.write_bigint_object();
                Ok(())
            },
            Value::StringObject(s) => {
                self.write_string_object(s);
                Ok(())
            },
            Value::RegExp { expr, flags } => {
                self.write_regexp(expr, *flags);
                Ok(())
            },
            Value::JsMap(entries) => {
                self.write_map(entries)
            },
            Value::JsSet(items) => {
                self.write_set(items)
            },
            Value::ArrayBuffer(b) => {
                self.write_array_buffer(b)
            },
            Value::ArrayBufferTransfer { transfer_id } => {
                self.write_array_buffer_transfer(
                *transfer_id,
            );
                Ok(())
            },
            Value::ArrayBufferView { ty, byte_offset, byte_length, buffer } => {
                self.write_array_buffer_view(*ty, *byte_offset, *byte_length, buffer)
            },
            Value::SharedArrayBuffer { transfer_id } => {
                self.write_shared_array_buffer(
                *transfer_id,
            );
                Ok(())
            },
            Value::Error { ty, message, stack } => {
                self.write_error(*ty, message, stack);
                Ok(())
            },
        };
        proof {
            if r is Ok || value is ArrayBuffer || value is ArrayBufferView {
                assert(self.data@.take(old(self).data@.len() as int) =~= old(self).data@);
            }
        }
        r
    }

    /// Writes `value` after what was written, and hands back the whole stream.
    pub fn serialize(self, value: &Value) -> (r: Result<Vec<u8>, Error>)
        ensures
            r matches Err(e) ==> e is SizeLimit,
            r is Ok <==> fits(value.model()),
            r matches Ok(b) ==> b@ == self.written() + value_bytes(value.model()),
    {
        let mut s = self;
        match s.write_value(value) {
            Ok(()) => Ok(s.data),
            Err(e) => Err(e),
        }
    }

    // The adapter: the operations a producer that builds no `Value` drives the
    // encoder with, field by field. Each writes as the wire rule of its kind.

    pub fn serialize_bool(&mut self, v: bool)
        requires
            old(self).wf(),
        ensures
            final(self).wf(),
            final(self).open_frames() == old(self).open_frames(),
            final(self).written() == old(self).written() + value_bytes(ValueModel::Boolean(v)),
    {
        self.write_boolean(v);
    }

    pub fn serialize_i8(&mut self, v: i8)
        requires
            old(self).wf(),
        ensures
            final(self).wf(),
            final(self).open_frames() == old(self).open_frames(),
            final(self).written() == old(self).written() + value_bytes(
                ValueModel::Int32(v as i32),
            ),
    {
        self.write_int32(v as i32);
    }

    pub fn serialize_i16(&mut self, v: i16)
        requires
            old(self).wf(),
        ensures
            final(self).wf(),
            final(self).open_frames() == old(self).open_frames(),
            final(self).written() == old(self).written() + value_bytes(
                ValueModel::Int32(v as i32),
            ),
    {
        self.write_int32(v as i32);
    }

    pub fn serialize_i32(&mut self, v: i32)
        requires
            old(self).wf(),
        ensures
            final(self).wf(),
            final(self).open_frames() == old(self).open_frames(),
            final(self).written() == old(self).written() + value_bytes(ValueModel::Int32(v)),
    {
        self.write_int32(v);
    }

    /// A 64-bit signed integer, as a bigint.
    pub fn serialize_i64(&mut self, v: i64)
        requires
            old(self).wf(),
        ensures
            final(self).wf(),
            final(self).open_frames() == old(self).open_frames(),
            final(self).written() == old(self).written() + value_bytes(ValueModel::BigInt(v)),
    {
        self.write_bigint(v);
    }

    pub fn serialize_u8(&mut self, v: u8)
        requires
            old(self).wf(),
        ensures
            final(self).wf(),
            final(self).open_frames() == old(self).open_frames(),
            final(self).written() == old(self).written() + value_bytes(
                ValueModel::Uint32(v as u32),
            ),
    {
        self.write_uint32(v as u32);
    }

    pub fn serialize_u16(&mut self, v: u16)
        requires
            old(self).wf(),
        ensures
            final(self).wf(),
            final(self).open_frames() == old(self).open_frames(),
            final(self).written() == old(self).written() + value_bytes(
                ValueModel::Uint32(v as u32),
            ),
    {
        self.write_uint32(v as u32);
    }

    pub fn serialize_u32(&mut self, v: u32)
        requires
            old(self).wf(),
        ensures
            final(self).wf(),
            final(self).open_frames() == old(self).open_frames(),
            final(self).written() == old(self).written() + value_bytes(ValueModel::Uint32(v)),
    {
        self.write_uint32(v);
    }

    /// A 64-bit unsigned integer, as a non-negative bigint of eight bytes.
    pub fn serialize_u64(&mut self, v: u64)
        requires
            old(self).wf(),
        ensures
            final(self).wf(),
            final(self).open_frames() == old(self).open_frames(),
            final(self).written() == old(self).written() + seq![TAG_BIGINT] + varint(16)
                + le_bytes(v as nat, 8),
    {
        self.data.push(TAG_BIGINT);
        self.write_varint(16);
        self.write_le8(v);
    }

    /// A double, given as its eight bytes in host order.
    pub fn serialize_f64(&mut self, v: &[u8; 8])
        requires
            old(self).wf(),
        ensures
            final(self).wf(),
            final(self).open_frames() == old(self).open_frames(),
            final(self).written() == old(self).written() + value_bytes(ValueModel::Double(v@)),
    {
        self.write_double(v);
    }

    /// Text, as a one-byte string.
    pub fn serialize_str(&mut self, v: &str)
        requires
            old(self).wf(),
        ensures
            final(self).wf(),
            final(self).open_frames() == old(self).open_frames(),
            final(self).written() == old(self).written() + value_bytes(
                ValueModel::String(v@, false),
            ),
    {
        self.data.push(TAG_ONE_BYTE_STRING);
        let b = v.as_bytes();
        self.write_varint(b.len() as u64);
        self.data.extend_from_slice(b);
    }

    /// Raw bytes, as an array buffer; fails, writing nothing, past 32 bits of length.
    pub fn serialize_bytes(&mut self, v: &[u8]) -> (r: Result<(), Error>)
        requires
            old(self).wf(),
        ensures
            final(self).wf(),
            final(self).open_frames() == old(self).open_frames(),
            r is Ok <==> v@.len() <= u32::MAX,
            r is Ok ==> final(self).written() == old(self).written() + value_bytes(
                ValueModel::ArrayBuffer(v@),
            ),
            r is Err ==> final(self).written() == old(self).written() && r == Err::<(), Error>(
                Error::SizeLimit { len: v@.len() as usize },
            ),
    {
        if v.len() > u32::MAX as usize {
            return Err(Error::SizeLimit { len: v.len() });
        }
        self.data.push(TAG_ARRAY_BUFFER);
        self.write_varint(v.len() as u64);
        self.data.extend_from_slice(v);
        Ok(())
    }

    /// No value (a `None` or a unit), as undefined.
    pub fn serialize_none(&mut self)
        requires
            old(self).wf(),
        ensures
            final(self).wf(),
            final(self).open_frames() == old(self).open_frames(),
            final(self).written() == old(self).written() + value_bytes(ValueModel::Undefined),
    {
        self.write_undefined();
    }

    /// A record without fields, as an empty object.
    pub fn serialize_unit_struct(&mut self)
        requires
            old(self).wf(),
        ensures
            final(self).wf(),
            final(self).open_frames() == old(self).open_frames(),
            final(self).written() == old(self).written() + seq![TAG_BEGIN_OBJECT, TAG_END_OBJECT]
                + varint(0),
    {
        self.data.push(TAG_BEGIN_OBJECT);
        self.data.push(TAG_END_OBJECT);
        self.write_varint(0);
    }

    /// Opens a variant: an object of one field, keyed by the variant's name.
    /// Its payload follows, then `end_variant`.
    pub fn begin_variant(&mut self, variant: &str)
        requires
            old(self).wf(),
        ensures
            final(self).wf(),
            final(self).open_frames() == old(self).open_frames(),
            final(self).written() == old(self).written() + seq![TAG_BEGIN_OBJECT] + value_bytes(
                ValueModel::String(variant@, false),
            ),
    {
        self.data.push(TAG_BEGIN_OBJECT);
        self.serialize_str(variant);
    }

    /// Closes a variant's object of one field.
    pub fn end_variant(&mut self)
        requires
            old(self).wf(),
        ensures
            final(self).wf(),
            final(self).open_frames() == old(self).open_frames(),
            final(self).written() == old(self).written() + seq![TAG_END_OBJECT] + varint(1),
    {
        self.data.push(TAG_END_OBJECT);
        self.write_varint(1);
    }

    /// A variant without payload: its name keys undefined.
    pub fn serialize_unit_variant(&mut self, variant: &str)
        requires
            old(self).wf(),
        ensures
            final(self).wf(),
            final(self).open_frames() == old(self).open_frames(),
            final(self).written() == old(self).written() + seq![TAG_BEGIN_OBJECT] + value_bytes(
                ValueModel::String(variant@, false),
            ) + value_bytes(ValueModel::Undefined) + seq![TAG_END_OBJECT] + varint(1),
    {
        self.begin_variant(variant);
        self.serialize_none();
        self.end_variant();
    }

    /// Opens a sequence. A known length is written at once; an unknown one is
    /// counted through `serialize_element` and put in place by `end_seq`.
    pub fn serialize_seq(&mut self, len: Option<usize>)
        requires
            old(self).wf(),
        ensures
            final(self).wf(),
            final(self).open_frames() == old(self).open_frames().push(
                Frame { start: (old(self).written().len() + 1) as usize, declared: len, count: 0 },
            ),
            final(self).written() == old(self).written() + seq![TAG_BEGIN_ARRAY] + match len {
                Some(n) => varint(n as nat),
                None => Seq::empty(),
            },
    {
        self.data.push(TAG_BEGIN_ARRAY);
        let start = self.data.len();
        if let Some(n) = len {
            self.write_varint(n as u64);
        }
        self.frames.push(Frame { start, declared: len, count: 0 });
    }

    /// Opens a tuple: a sequence of known length.
    pub fn serialize_tuple(&mut self, len: usize)
        requires
            old(self).wf(),
        ensures
            final(self).wf(),
            final(self).open_frames() == old(self).open_frames().push(
                Frame {
                    start: (old(self).written().len() + 1) as usize,
                    declared: Some(len),
                    count: 0,
                },
            ),
            final(self).written() == old(self).written() + seq![TAG_BEGIN_ARRAY] + varint(
                len as nat,
            ),
    {
        self.serialize_seq(Some(len));
    }

    /// Counts one more element (or map entry) of the innermost open composite;
    /// the element itself is written next.
    pub fn serialize_element(&mut self)
        requires
            old(self).wf(),
            old(self).open_frames().len() > 0,
        ensures
            final(self).wf(),
            final(self).written() == old(self).written(),
            final(self).open_frames() == old(self).open_frames().update(
                old(self).open_frames().len() - 1,
                Frame {
                    count: old(self).open_frames().last().count.saturating_add(1),
                    ..old(self).open_frames().last()
                },
            ),
    {
        let last = self.frames.len() - 1;
        let f = self.frames[last];
        self.frames.set(last, Frame { count: f.count.saturating_add(1), ..f });
    }

    /// Closes the innermost sequence: an unknown length is put in place at its
    /// start, and the length closes it too.
    pub fn end_seq(&mut self)
        requires
            old(self).wf(),
            old(self).open_frames().len() > 0,
        ensures
            final(self).wf(),
            final(self).open_frames() == old(self).open_frames().drop_last(),
            ({
                let f = old(self).open_frames().last();
                let w = old(self).written();
                final(self).written() == match f.declared {
                    Some(n) => w + seq![TAG_END_ARRAY, 0u8] + varint(n as nat),
                    None => w.take(f.start as int) + varint(f.count as nat) + w.skip(
                        f.start as int,
                    ) + seq![TAG_END_ARRAY, 0u8] + varint(f.count as nat),
                }
            }),
    {
        let ghost w = self.data@;
        let f = match self.frames.pop() {
            Some(f) => f,
            None => {
                return;
            },
        };
        let n = match f.declared {
            Some(n) => n,
            None => {
                let b = varint_u64(f.count as u64);
                let mut i: usize = 0;
                while i < b.len()
                    invariant
                        i <= b@.len(),
                        f.start <= w.len(),
                        self.data@ == w.take(f.start as int) + b@.take(i as int) + w.skip(
                            f.start as int,
                        ),
                        self.frames@ == old(self).frames@.drop_last(),
                    decreases b@.len() - i,
                {
                    let len = self.data.len();
                    assert(f.start + i <= len);
                    let pos = f.start + i;
                    self.data.insert(pos, b[i]);
                    assert(self.data@ =~= w.take(f.start as int) + b@.take(i + 1) + w.skip(
                        f.start as int,
                    ));
                    i = i + 1;
                }
                assert(b@.take(b@.len() as int) == b@);
                f.count
            },
        };
        self.data.push(TAG_END_ARRAY);
        self.data.push(0);
        self.write_varint(n as u64);
    }

    /// Opens a map; `serialize_element` counts its entries when no length is given.
    pub fn serialize_map(&mut self, len: Option<usize>)
        requires
            old(self).wf(),
        ensures
            final(self).wf(),
            final(self).open_frames() == old(self).open_frames().push(
                Frame { start: (old(self).written().len() + 1) as usize, declared: len, count: 0 },
            ),
            final(self).written() == old(self).written() + seq![TAG_BEGIN_MAP],
    {
        self.data.push(TAG_BEGIN_MAP);
        let start = self.data.len();
        self.frames.push(Frame { start, declared: len, count: 0 });
    }

    /// Closes the innermost map with twice its number of entries; fails where
    /// that count does not fit 64 bits.
    pub fn end_map(&mut self) -> (r: Result<(), Error>)
        requires
            old(self).wf(),
            old(self).open_frames().len() > 0,
        ensures
            final(self).wf(),
            final(self).open_frames() == old(self).open_frames().drop_last(),
            ({
                let f = old(self).open_frames().last();
                let n = match f.declared {
                    Some(n) => n,
                    None => f.count,
                };
                &&& r is Ok <==> 2 * n <= u64::MAX
                &&& r is Ok ==> final(self).written() == old(self).written() + seq![TAG_END_MAP]
                    + varint(2 * n as nat)
            }),
    {
        let f = match self.frames.pop() {
            Some(f) => f,
            None => {
                return Ok(());
            },
        };
        let n = match f.declared {
            Some(n) => n,
            None => f.count,
        };
        let count = match (n as u64).checked_mul(2) {
            Some(c) => c,
            None => {
                return Err(Error::SizeLimit { len: n });
            },
        };
        self.data.push(TAG_END_MAP);
        self.write_varint(count);
        Ok(())
    }

    /// Opens a record of `len` named fields, as an object.
    pub fn serialize_struct(&mut self, len: usize)
        requires
            old(self).wf(),
        ensures
            final(self).wf(),
            final(self).open_frames() == old(self).open_frames().push(
                Frame {
                    start: (old(self).written().len() + 1) as usize,
                    declared: Some(len),
                    count: 0,
                },
            ),
            final(self).written() == old(self).written() + seq![TAG_BEGIN_OBJECT],
    {
        self.data.push(TAG_BEGIN_OBJECT);
        let start = self.data.len();
        self.frames.push(Frame { start, declared: Some(len), count: 0 });
    }

    /// The key of a record's field; its value is written next.
    pub fn serialize_field(&mut self, key: &str)
        requires
            old(self).wf(),
        ensures
            final(self).wf(),
            final(self).open_frames() == old(self).open_frames(),
            final(self).written() == old(self).written() + value_bytes(
                ValueModel::String(key@, false),
            ),
    {
        self.serialize_str(key);
    }

    /// Closes the innermost record with its number of fields.
    pub fn end_struct(&mut self)
        requires
            old(self).wf(),
            old(self).open_frames().len() > 0,
        ensures
            final(self).wf(),
            final(self).open_frames() == old(self).open_frames().drop_last(),
            ({
                let f = old(self).open_frames().last();
                let n = match f.declared {
                    Some(n) => n,
                    None => f.count,
                };
                final(self).written() == old(self).written() + seq![TAG_END_OBJECT] + varint(
                    n as nat,
                )
            }),
    {
        let f = match self.frames.pop() {
            Some(f) => f,
            None => {
                return;
            },
        };
        let n = match f.declared {
            Some(n) => n,
            None => f.count,
        };
        self.data.push(TAG_END_OBJECT);
        self.write_varint(n as u64);
    }

    /// A date, given as the eight host-order bytes of its millisecond count.
    pub fn serialize_date(&mut self, ms: &[u8; 8])
        requires
            old(self).wf(),
        ensures
            final(self).wf(),
            final(self).open_frames() == old(self).open_frames(),
            final(self).written() == old(self).written() + value_bytes(ValueModel::Date(ms@)),
    {
        self.write_date(ms);
    }


    /// How many composites are open through the adapter.
    pub fn depth(&self) -> (r: usize)
        ensures
            r == self.open_frames().len(),
    {
        self.frames.len()
    }

}

/// Encodes `value` as a stream: the header, then the value's bytes. Fails only
/// where a buffer length or a map count does not fit its field.
pub fn encode(value: &Value) -> (r: Result<Vec<u8>, Error>)
    ensures
        r matches Err(e) ==> e is SizeLimit,
        r is Ok <==> fits(value.model()),
        r matches Ok(b) ==> b@ == header_bytes() + value_bytes(value.model()),
{
    Serializer::new().serialize(value)
}

} // verus!
