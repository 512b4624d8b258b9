use vstd::prelude::*;
use vstd::slice::{slice_subrange, slice_to_vec};
use vstd::utf8::{decode_utf8, valid_utf8};
use crate::error::Error;
use crate::read::{
    bigint_value, count_check, decoded, payload, digits_value, error_type_of, expect_byte, le_value, parse_fields,
    parse_items, parse_pairs, parse_value, read_bigint, read_bytes, read_error, read_error_field,
    read_i32, read_text, read_u32, read_varint, read_view, truncated_at, unzigzag, varint_end,
    view_type_of, Read,
};
use crate::value::{
    text_model, entries_model, items_model, pairs_model, ArrayBufferViewType, ErrorType, Value, ValueModel,
};
use crate::wire::{
    TAG_ARRAY_BUFFER, TAG_ARRAY_BUFFER_TRANSFER, TAG_ARRAY_BUFFER_VIEW, TAG_BEGIN_ARRAY,
    TAG_BEGIN_MAP, TAG_BEGIN_OBJECT, TAG_BEGIN_SET, TAG_BIGINT, TAG_BIGINT_OBJECT, TAG_DATE,
    TAG_DOUBLE, TAG_END_ARRAY, TAG_END_MAP, TAG_END_OBJECT, TAG_END_SET, TAG_ERROR, TAG_ERROR_END,
    TAG_ERROR_MESSAGE, TAG_ERROR_STACK, TAG_FALSE, TAG_INT32, TAG_NULL, TAG_NUMBER_OBJECT,
    TAG_OBJECT_REFERENCE, TAG_ONE_BYTE_STRING, TAG_REGEXP, TAG_SHARED_ARRAY_BUFFER,
    TAG_STRING_OBJECT, TAG_TRUE, TAG_TWO_BYTE_STRING, TAG_UINT32, TAG_UNDEFINED, TAG_VERSION,
};

verus! {

/// Relies on std's `String::from_utf8`: it succeeds exactly on valid UTF-8,
/// and the text is the characters those bytes encode.
#[verifier::external_body]
fn string_from_utf8(b: Vec<u8>) -> (r: Option<String>)
    ensures
        r is Some <==> valid_utf8(b@),
        r matches Some(s) ==> s@ == decode_utf8(b@),
{
    String::from_utf8(b).ok()
}

pub proof fn lemma_digits_value_mono(d: Seq<u8>, a: int, b: int, last: int)
    requires
        a <= b <= last,
    ensures
        digits_value(d, a, last) >= digits_value(d, b, last),
    decreases b - a,
{
    if a < b {
        lemma_digits_value_mono(d, a + 1, b, last);
    }
}

pub proof fn lemma_le_value_mono(b: Seq<u8>, i: int, j: int)
    requires
        0 <= i <= j,
    ensures
        le_value(b, i) >= le_value(b, j),
    decreases j - i,
{
    if i < j {
        lemma_le_value_mono(b, i + 1, j);
    }
}

/// Whether an executable read agrees with the grammar's read `s`.
pub open spec fn agrees<T>(s: Read<T>, r: Result<T, Error>, end: int) -> bool {
    match s {
        Ok((x, e)) => r == Ok::<T, Error>(x) && end == e,
        Err(e) => r == Err::<T, Error>(e),
    }
}

/// Whether a decoded value agrees with the grammar's read `s`.
pub open spec fn value_agrees(s: Read<ValueModel>, r: Result<Value, Error>, end: int) -> bool {
    match s {
        Ok((m, e)) => r matches Ok(v) && v.model() == m && end == e,
        Err(e) => r == Err::<Value, Error>(e),
    }
}

/// A decoder: the input and a cursor into it.
pub struct Deserializer<'a> {
    data: &'a [u8],
    offset: usize,
}

impl<'a> Deserializer<'a> {
    pub closed spec fn input(&self) -> Seq<u8> {
        self.data@
    }

    pub closed spec fn position(&self) -> int {
        self.offset as int
    }

    pub closed spec fn wf(&self) -> bool {
        self.offset <= self.data@.len()
    }

    /// A decoder over no input.
    pub fn new() -> (r: Self)
        ensures
            r.input().len() == 0,
            r.position() == 0,
    {
        Deserializer { data: &[], offset: 0 }
    }

    /// The byte under the cursor.
    fn byte(&self) -> (r: u8)
        requires
            self.offset < self.data@.len(),
        ensures
            r == self.data@[self.offset as int],
    {
        self.data[self.offset]
    }

    /// Moves the cursor one byte on.
    fn next(&mut self) -> (r: usize)
        requires
            old(self).offset < old(self).data@.len(),
        ensures
            final(self).data == old(self).data,
            final(self).offset == old(self).offset + 1,
            r == final(self).offset,
    {
        let len = self.data.len();
        assert(self.offset < len);
        self.offset = self.offset + 1;
        self.offset
    }

    /// Steps over the byte `to_be`, or fails where another byte or none stands.
    fn expect_next(&mut self, to_be: u8) -> (r: Result<(), Error>)
        requires
            old(self).wf(),
        ensures
            final(self).wf(),
            final(self).data == old(self).data,
            final(self).offset >= old(self).offset,
            r is Err ==> final(self).offset == old(self).offset,
            agrees(
                expect_byte(old(self).data@, old(self).offset as int, to_be),
                r,
                final(self).offset as int,
            ),
    {
        if self.offset >= self.data.len() {
            return Err(Error::Truncated { at: self.offset });
        }
        if self.byte() == to_be {
            self.next();
            Ok(())
        } else {
            Err(Error::Expected { expected: to_be, found: self.byte(), at: self.offset })
        }
    }

    #[verifier::loop_isolation(false)]
    fn read_varint(&mut self, tag: u8) -> (r: Result<u64, Error>)
        requires
            old(self).wf(),
        ensures
            final(self).wf(),
            final(self).data == old(self).data,
            final(self).offset >= old(self).offset,
            agrees(
                read_varint(old(self).data@, old(self).offset as int, tag),
                r,
                final(self).offset as int,
            ),
    {
        let ghost d = self.data@;
        let start = self.offset;
        let len = self.data.len();
        let mut j = start;
        while j < len && self.data[j] >= 128
            invariant
                start <= j <= len,
                len == d.len(),
                d == self.data@,
                self.data == old(self).data,
                self.offset == start,
                start == old(self).offset,
                varint_end(d, start as int) == varint_end(d, j as int),
            decreases len - j,
        {
            j = j + 1;
        }
        if j == len {
            return Err(Error::Truncated { at: len });
        }
        let mut r: u64 = (self.data[j] % 128) as u64;
        let mut k = j;
        while k > start
            invariant
                start <= k <= j < len,
                len == d.len(),
                d == self.data@,
                self.data == old(self).data,
                self.offset == start,
                start == old(self).offset,
                r == digits_value(d, k as int, j as int),
            decreases k,
        {
            k = k - 1;
            let low = (self.data[k] % 128) as u64;
            let next = match r.checked_mul(128) {
                Some(m) => m.checked_add(low),
                None => None,
            };
            match next {
                Some(x) => {
                    r = x;
                },
                None => {
                    proof {
                        assert(digits_value(d, k as int, j as int) == (d[k as int] % 128) as nat
                            + 128 * digits_value(d, k + 1, j as int));
                        lemma_digits_value_mono(d, start as int, k as int, j as int);
                    }
                    return Err(Error::UnsupportedPayload { tag, at: start });
                },
            }
        }
        self.offset = j + 1;
        Ok(r)
    }

    fn read_u32(&mut self, tag: u8) -> (r: Result<u32, Error>)
        requires
            old(self).wf(),
        ensures
            final(self).wf(),
            final(self).data == old(self).data,
            final(self).offset >= old(self).offset,
            agrees(
                read_u32(old(self).data@, old(self).offset as int, tag),
                r,
                final(self).offset as int,
            ),
    {
        let start = self.offset;
        let n = self.read_varint(tag)?;
        if n > u32::MAX as u64 {
            return Err(Error::UnsupportedPayload { tag, at: start });
        }
        Ok(n as u32)
    }

    fn read_i32(&mut self, tag: u8) -> (r: Result<i32, Error>)
        requires
            old(self).wf(),
        ensures
            final(self).wf(),
            final(self).data == old(self).data,
            final(self).offset >= old(self).offset,
            agrees(
                read_i32(old(self).data@, old(self).offset as int, tag),
                r,
                final(self).offset as int,
            ),
    {
        let start = self.offset;
        let n = self.read_varint(tag)?;
        if n > 0xFFFF_FFFF {
            return Err(Error::UnsupportedPayload { tag, at: start });
        }
        let i: i64 = if n % 2 == 0 {
            (n / 2) as i64
        } else {
            -(((n + 1) / 2) as i64)
        };
        if i < i32::MIN as i64 || i > i32::MAX as i64 {
            return Err(Error::UnsupportedPayload { tag, at: start });
        }
        Ok(i as i32)
    }

    fn read_bytes(&mut self, n: u64) -> (r: Result<Vec<u8>, Error>)
        requires
            old(self).wf(),
        ensures
            final(self).wf(),
            final(self).data == old(self).data,
            final(self).offset >= old(self).offset,
            match read_bytes(old(self).data@, old(self).offset as int, n as nat) {
                Ok((b, e)) => r matches Ok(v) && v@ == b && final(self).offset == e,
                Err(e) => r == Err::<Vec<u8>, Error>(e),
            },
    {
        if n > (self.data.len() - self.offset) as u64 {
            return Err(Error::Truncated { at: self.offset });
        }
        let end = self.offset + n as usize;
        let b = slice_to_vec(slice_subrange(self.data, self.offset, end));
        self.offset = end;
        Ok(b)
    }

    fn read_text(&mut self, tag: u8) -> (r: Result<String, Error>)
        requires
            old(self).wf(),
        ensures
            final(self).wf(),
            final(self).data == old(self).data,
            final(self).offset >= old(self).offset,
            match read_text(old(self).data@, old(self).offset as int, tag) {
                Ok((s, e)) => r matches Ok(t) && t@ == s && final(self).offset == e,
                Err(e) => r == Err::<String, Error>(e),
            },
    {
        let n = self.read_varint(tag)?;
        let at = self.offset;
        let b = self.read_bytes(n)?;
        match string_from_utf8(b) {
            Some(s) => Ok(s),
            None => Err(Error::InvalidUtf8 { at }),
        }
    }

    fn read_double(&mut self) -> (r: Result<[u8; 8], Error>)
        requires
            old(self).wf(),
        ensures
            final(self).wf(),
            final(self).data == old(self).data,
            final(self).offset >= old(self).offset,
            match read_bytes(old(self).data@, old(self).offset as int, 8) {
                Ok((b, e)) => r matches Ok(v) && v@ == b && final(self).offset == e,
                Err(e) => r == Err::<[u8; 8], Error>(e),
            },
    {
        if self.data.len() - self.offset < 8 {
            return Err(Error::Truncated { at: self.offset });
        }
        let p = self.offset;
        let d = self.data;
        let a: [u8; 8] = [d[p], d[p + 1], d[p + 2], d[p + 3], d[p + 4], d[p + 5], d[p + 6], d[p + 7]];
        assert(a@ == d@.subrange(p as int, p + 8));
        self.offset = p + 8;
        Ok(a)
    }

    #[verifier::loop_isolation(false)]
    fn read_bigint(&mut self) -> (r: Result<i64, Error>)
        requires
            old(self).wf(),
        ensures
            final(self).wf(),
            final(self).data == old(self).data,
            final(self).offset >= old(self).offset,
            agrees(read_bigint(old(self).data@, old(self).offset as int), r, final(self).offset as int),
    {
        let start = self.offset;
        let h = self.read_varint(TAG_BIGINT)?;
        if h / 2 > 8 {
            return Err(Error::UnsupportedPayload { tag: TAG_BIGINT, at: start });
        }
        let b = self.read_bytes(h / 2)?;
        let mut m: u64 = 0;
        let mut j = b.len();
        while j > 0
            invariant
                j <= b@.len(),
                m == le_value(b@, j as int),
                self.data == old(self).data,
                self.wf(),
                self.offset >= old(self).offset,
                read_bytes(old(self).data@, start as int, 0) is Ok,
            decreases j,
        {
            j = j - 1;
            let next = match m.checked_mul(256) {
                Some(x) => x.checked_add(b[j] as u64),
                None => None,
            };
            match next {
                Some(x) => {
                    m = x;
                },
                None => {
                    proof {
                        assert(le_value(b@, j as int) == b@[j as int] as nat + 256 * le_value(
                            b@,
                            j + 1,
                        ));
                        lemma_le_value_mono(b@, 0, j as int);
                    }
                    return Err(Error::UnsupportedPayload { tag: TAG_BIGINT, at: start });
                },
            }
        }
        if h % 2 == 1 {
            if m > 0x8000_0000_0000_0000 {
                return Err(Error::UnsupportedPayload { tag: TAG_BIGINT, at: start });
            }
            if m == 0x8000_0000_0000_0000 {
                Ok(i64::MIN)
            } else {
                Ok(-(m as i64))
            }
        } else {
            if m > 0x7FFF_FFFF_FFFF_FFFF {
                return Err(Error::UnsupportedPayload { tag: TAG_BIGINT, at: start });
            }
            Ok(m as i64)
        }
    }
    fn view_type_from(code: u8) -> (r: Option<ArrayBufferViewType>)
        ensures
            r == view_type_of(code),
    {
        if code == 0x62 {
            Some(ArrayBufferViewType::Int8Array)
        } else if code == 0x42 {
            Some(ArrayBufferViewType::Uint8Array)
        } else if code == 0x43 {
            Some(ArrayBufferViewType::Uint8ClampedArray)
        } else if code == 0x77 {
            Some(ArrayBufferViewType::Int16Array)
        } else if code == 0x57 {
            Some(ArrayBufferViewType::Uint16Array)
        } else if code == 0x64 {
            Some(ArrayBufferViewType::Int32Array)
        } else if code == 0x44 {
            Some(ArrayBufferViewType::Uint32Array)
        } else if code == 0x66 {
            Some(ArrayBufferViewType::Float32Array)
        } else if code == 0x46 {
            Some(ArrayBufferViewType::Float64Array)
        } else if code == 0x71 {
            Some(ArrayBufferViewType::BigInt64Array)
        } else if code == 0x51 {
            Some(ArrayBufferViewType::BigUint64Array)
        } else if code == 0x3F {
            Some(ArrayBufferViewType::DataView)
        } else {
            None
        }
    }

    fn error_type_from(code: u8) -> (r: Option<ErrorType>)
        ensures
            r == error_type_of(code),
    {
        if code == 0x45 {
            Some(ErrorType::EvalError)
        } else if code == 0x52 {
            Some(ErrorType::RangeError)
        } else if code == 0x46 {
            Some(ErrorType::ReferenceError)
        } else if code == 0x43 {
            Some(ErrorType::SyntaxError)
        } else if code == 0x54 {
            Some(ErrorType::TypeError)
        } else if code == 0x55 {
            Some(ErrorType::UriError)
        } else {
            None
        }
    }

    fn read_error_field(&mut self, marker: u8) -> (r: Result<Option<String>, Error>)
        requires
            old(self).wf(),
        ensures
            final(self).wf(),
            final(self).data == old(self).data,
            final(self).offset >= old(self).offset,
            match read_error_field(old(self).data@, old(self).offset as int, marker) {
                Ok((o, e)) => r matches Ok(x) && text_model(x) == o && final(self).offset == e,
                Err(e) => r == Err::<Option<String>, Error>(e),
            },
    {
        if self.offset < self.data.len() && self.byte() == marker {
            self.next();
            self.expect_next(TAG_ONE_BYTE_STRING)?;
            let s = self.read_text(TAG_ERROR)?;
            Ok(Some(s))
        } else {
            Ok(None)
        }
    }

    /// The payload of an error value, after its tag at `pos`.
    fn parse_error(&mut self, Ghost(pos): Ghost<int>) -> (r: Result<Value, Error>)
        requires
            old(self).wf(),
            old(self).offset == pos + 1,
            0 <= pos < old(self).data@.len(),
            old(self).data@[pos] == TAG_ERROR,
        ensures
            final(self).wf(),
            final(self).data == old(self).data,
            r is Ok ==> final(self).offset > pos,
            final(self).offset >= old(self).offset,
            value_agrees(parse_value(old(self).data@, pos), r, final(self).offset as int),
    {
        let mut ty = ErrorType::Unknown;
        if self.offset < self.data.len() {
            match Self::error_type_from(self.byte()) {
                Some(t) => {
                    ty = t;
                    self.next();
                },
                None => {},
            }
        }
        let message = self.read_error_field(TAG_ERROR_MESSAGE)?;
        let stack = self.read_error_field(TAG_ERROR_STACK)?;
        self.expect_next(TAG_ERROR_END)?;
        Ok(Value::Error { ty, message, stack })
    }

    /// An array buffer, or a view over it, after its tag at `pos`.
    #[verifier::rlimit(60)]
    fn parse_buffer(&mut self, Ghost(pos): Ghost<int>) -> (r: Result<Value, Error>)
        requires
            old(self).wf(),
            old(self).offset == pos + 1,
            0 <= pos < old(self).data@.len(),
            old(self).data@[pos] == TAG_ARRAY_BUFFER,
        ensures
            final(self).wf(),
            final(self).data == old(self).data,
            r is Ok ==> final(self).offset > pos,
            final(self).offset >= old(self).offset,
            value_agrees(parse_value(old(self).data@, pos), r, final(self).offset as int),
    {
        let n = self.read_varint(TAG_ARRAY_BUFFER)?;
        let buffer = self.read_bytes(n)?;
        if self.offset < self.data.len() && self.byte() == TAG_ARRAY_BUFFER_VIEW {
            self.next();
            if self.offset >= self.data.len() {
                return Err(Error::Truncated { at: self.offset });
            }
            let code = self.byte();
            let ty = match Self::view_type_from(code) {
                Some(t) => t,
                None => {
                    return Err(Error::UnexpectedTag { byte: code, at: self.offset });
                },
            };
            self.next();
            let byte_offset = self.read_u32(TAG_ARRAY_BUFFER_VIEW)?;
            let byte_length = self.read_u32(TAG_ARRAY_BUFFER_VIEW)?;
            Ok(Value::ArrayBufferView { ty, byte_offset, byte_length, buffer })
        } else {
            Ok(Value::ArrayBuffer(buffer))
        }
    }

    /// Values up to and past `end_tag`.
    fn parse_items(&mut self, end_tag: u8) -> (r: Result<Vec<Value>, Error>)
        requires
            old(self).wf(),
        ensures
            final(self).wf(),
            final(self).data == old(self).data,
            final(self).offset >= old(self).offset,
            match parse_items(old(self).data@, old(self).offset as int, end_tag, seq![]) {
                Ok((s, e)) => r matches Ok(v) && items_model(v@) == s && final(self).offset == e,
                Err(e) => r == Err::<Vec<Value>, Error>(e),
            },
        decreases old(self).data@.len() - old(self).offset, 2nat,
    {
        let ghost d = self.data@;
        let ghost start = self.offset as int;
        let mut items: Vec<Value> = Vec::new();
        assert(items_model(items@) == Seq::<ValueModel>::empty());
        loop
            invariant
                self.wf(),
                self.data == old(self).data,
                d == self.data@,
                start == old(self).offset,
                self.offset >= start,
                parse_items(d, start, end_tag, seq![]) == parse_items(
                    d,
                    self.offset as int,
                    end_tag,
                    items_model(items@),
                ),
            decreases d.len() - self.offset,
        {
            if self.offset >= self.data.len() {
                return Err(Error::Truncated { at: self.offset });
            }
            if self.byte() == end_tag {
                self.next();
                return Ok(items);
            }
            let ghost before = self.offset as int;
            let v = self.parse()?;
            let ghost vm = v.model();
            let ghost prior = items_model(items@);
            assert(parse_items(d, before, end_tag, prior) == parse_items(
                d,
                self.offset as int,
                end_tag,
                prior.push(vm),
            ));
            items.push(v);
            assert(items_model(items@) =~= prior.push(vm));
        }
    }

    /// Object fields up to and past the closing tag.
    #[verifier::rlimit(60)]
    fn parse_fields(&mut self) -> (r: Result<Vec<(String, Value)>, Error>)
        requires
            old(self).wf(),
        ensures
            final(self).wf(),
            final(self).data == old(self).data,
            final(self).offset >= old(self).offset,
            match parse_fields(old(self).data@, old(self).offset as int, seq![]) {
                Ok((s, e)) => r matches Ok(v) && entries_model(v@) == s && final(self).offset == e,
                Err(e) => r == Err::<Vec<(String, Value)>, Error>(e),
            },
        decreases old(self).data@.len() - old(self).offset, 2nat,
    {
        let ghost d = self.data@;
        let ghost start = self.offset as int;
        let mut fields: Vec<(String, Value)> = Vec::new();
        assert(entries_model(fields@) == Seq::<(Seq<char>, ValueModel)>::empty());
        loop
            invariant
                self.wf(),
                self.data == old(self).data,
                d == self.data@,
                start == old(self).offset,
                self.offset >= start,
                parse_fields(d, start, seq![]) == parse_fields(
                    d,
                    self.offset as int,
                    entries_model(fields@),
                ),
            decreases d.len() - self.offset,
        {
            if self.offset >= self.data.len() {
                return Err(Error::Truncated { at: self.offset });
            }
            let ghost before = self.offset as int;
            let b = self.byte();
            if b == TAG_END_OBJECT {
                self.next();
                return Ok(fields);
            }
            if b != TAG_ONE_BYTE_STRING {
                return Err(Error::UnexpectedTag { byte: b, at: self.offset });
            }
            self.next();
            let k = self.read_text(TAG_ONE_BYTE_STRING)?;
            let v = self.parse()?;
            let ghost f = (k@, v.model());
            let ghost prior = entries_model(fields@);
            assert(parse_fields(d, before, prior) == parse_fields(
                d,
                self.offset as int,
                prior.push(f),
            ));
            fields.push((k, v));
            assert(entries_model(fields@) =~= prior.push(f));
        }
    }

    /// Map entries up to and past the closing tag.
    fn parse_pairs(&mut self) -> (r: Result<Vec<(Value, Value)>, Error>)
        requires
            old(self).wf(),
        ensures
            final(self).wf(),
            final(self).data == old(self).data,
            final(self).offset >= old(self).offset,
            match parse_pairs(old(self).data@, old(self).offset as int, seq![]) {
                Ok((s, e)) => r matches Ok(v) && pairs_model(v@) == s && final(self).offset == e,
                Err(e) => r == Err::<Vec<(Value, Value)>, Error>(e),
            },
        decreases old(self).data@.len() - old(self).offset, 2nat,
    {
        let ghost d = self.data@;
        let ghost start = self.offset as int;
        let mut pairs: Vec<(Value, Value)> = Vec::new();
        assert(pairs_model(pairs@) == Seq::<(ValueModel, ValueModel)>::empty());
        loop
            invariant
                self.wf(),
                self.data == old(self).data,
                d == self.data@,
                start == old(self).offset,
                self.offset >= start,
                parse_pairs(d, start, seq![]) == parse_pairs(
                    d,
                    self.offset as int,
                    pairs_model(pairs@),
                ),
            decreases d.len() - self.offset,
        {
            if self.offset >= self.data.len() {
                return Err(Error::Truncated { at: self.offset });
            }
            if self.byte() == TAG_END_MAP {
                self.next();
                return Ok(pairs);
            }
            let ghost before = self.offset as int;
            let k = self.parse()?;
            let v = self.parse()?;
            let ghost f = (k.model(), v.model());
            let ghost prior = pairs_model(pairs@);
            assert(parse_pairs(d, before, prior) == parse_pairs(
                d,
                self.offset as int,
                prior.push(f),
            ));
            pairs.push((k, v));
            assert(pairs_model(pairs@) =~= prior.push(f));
        }
    }

    /// A composite (object, array, map or set), after its tag at `pos`.
    #[verifier::rlimit(60)]
    fn parse_composite(&mut self, tag: u8, Ghost(pos): Ghost<int>) -> (r: Result<Value, Error>)
        requires
            old(self).wf(),
            old(self).offset == pos + 1,
            0 <= pos < old(self).data@.len(),
            old(self).data@[pos] == tag,
            tag == TAG_BEGIN_OBJECT || tag == TAG_BEGIN_ARRAY || tag == TAG_BEGIN_MAP || tag
                == TAG_BEGIN_SET,
        ensures
            final(self).wf(),
            final(self).data == old(self).data,
            r is Ok ==> final(self).offset > pos,
            final(self).offset >= old(self).offset,
            value_agrees(parse_value(old(self).data@, pos), r, final(self).offset as int),
        decreases old(self).data@.len() - old(self).offset, 3nat,
    {
        let at = self.offset - 1;
        if tag == TAG_BEGIN_OBJECT {
            let fields = self.parse_fields()?;
            let n = self.read_varint(tag)?;
            let actual = fields.len() as u64;
            if n != actual {
                return Err(Error::CountMismatch { declared: n, actual, at });
            }
            Ok(Value::Object(fields))
        } else if tag == TAG_BEGIN_ARRAY {
            let len = self.read_varint(tag)?;
            let items = self.parse_items(TAG_END_ARRAY)?;
            self.expect_next(0)?;
            let n = self.read_varint(tag)?;
            let actual = items.len() as u64;
            if len != actual {
                return Err(Error::CountMismatch { declared: len, actual, at });
            }
            if n != actual {
                return Err(Error::CountMismatch { declared: n, actual, at });
            }
            Ok(Value::Array(items))
        } else if tag == TAG_BEGIN_MAP {
            let entries = self.parse_pairs()?;
            let n = self.read_varint(tag)?;
            let len = entries.len() as u64;
            let actual: u64 = if len <= u64::MAX / 2 {
                2 * len
            } else {
                u64::MAX
            };
            if len > u64::MAX / 2 || n != actual {
                return Err(Error::CountMismatch { declared: n, actual, at });
            }
            Ok(Value::JsMap(entries))
        } else {
            let items = self.parse_items(TAG_END_SET)?;
            let n = self.read_varint(tag)?;
            let actual = items.len() as u64;
            if n != actual {
                return Err(Error::CountMismatch { declared: n, actual, at });
            }
            Ok(Value::JsSet(items))
        }
    }

    /// The value under the cursor.
    #[verifier::rlimit(60)]
    pub fn parse(&mut self) -> (r: Result<Value, Error>)
        requires
            old(self).wf(),
        ensures
            final(self).wf(),
            final(self).input() == old(self).input(),
            r is Ok ==> final(self).position() > old(self).position(),
            final(self).position() >= old(self).position(),
            value_agrees(
                parse_value(old(self).input(), old(self).position()),
                r,
                final(self).position(),
            ),
        decreases old(self).input().len() - old(self).position(), 1nat,
    {
        if self.offset >= self.data.len() {
            return Err(Error::Truncated { at: self.offset });
        }
        let tag = self.byte();
        let pos = self.offset;
        self.next();
        if tag == TAG_UNDEFINED {
            Ok(Value::Undefined)
        } else if tag == TAG_NULL {
            Ok(Value::Null)
        } else if tag == TAG_TRUE {
            Ok(Value::Boolean(true))
        } else if tag == TAG_FALSE {
            Ok(Value::Boolean(false))
        } else if tag == TAG_INT32 {
            Ok(Value::Int32(self.read_i32(tag)?))
        } else if tag == TAG_UINT32 {
            Ok(Value::Uint32(self.read_u32(tag)?))
        } else if tag == TAG_DOUBLE {
            Ok(Value::Double(self.read_double()?))
        } else if tag == TAG_DATE {
            Ok(Value::Date(self.read_double()?))
        } else if tag == TAG_NUMBER_OBJECT {
            Ok(Value::NumberObject(self.read_double()?))
        } else if tag == TAG_BIGINT {
            Ok(Value::BigInt(self.read_bigint()?))
        } else if tag == TAG_ONE_BYTE_STRING || tag == TAG_TWO_BYTE_STRING {
            let s = self.read_text(tag)?;
            Ok(Value::String(s, tag == TAG_TWO_BYTE_STRING))
        } else if tag == TAG_OBJECT_REFERENCE {
            Ok(Value::ObjectReference { id: self.read_u32(tag)? })
        } else if tag == TAG_BEGIN_OBJECT || tag == TAG_BEGIN_ARRAY || tag == TAG_BEGIN_MAP || tag
            == TAG_BEGIN_SET {
            self.parse_composite(tag, Ghost(pos as int))
        } else if tag == TAG_BIGINT_OBJECT {
            Err(Error::UnsupportedPayload { tag, at: pos })
        } else if tag == TAG_STRING_OBJECT {
            Ok(Value::StringObject(self.read_text(tag)?))
        } else if tag == TAG_REGEXP {
            let expr = self.read_text(tag)?;
            let flags = self.read_u32(tag)?;
            Ok(Value::RegExp { expr, flags })
        } else if tag == TAG_ARRAY_BUFFER {
            self.parse_buffer(Ghost(pos as int))
        } else if tag == TAG_ARRAY_BUFFER_TRANSFER {
            Ok(Value::ArrayBufferTransfer { transfer_id: self.read_u32(tag)? })
        } else if tag == TAG_SHARED_ARRAY_BUFFER {
            Ok(Value::SharedArrayBuffer { transfer_id: self.read_u32(tag)? })
        } else if tag == TAG_ERROR {
            self.parse_error(Ghost(pos as int))
        } else {
            Err(Error::UnexpectedTag { byte: tag, at: pos })
        }
    }
    /// Reads the value at the start of `data`, after the header if it has one;
    /// offsets in errors count from the start of `data`.
    pub fn deserialize(self, data: &'a [u8]) -> (r: Result<Value, Error>)
        ensures
            match decoded(data@) {
                Ok(m) => r matches Ok(v) && v.model() == m,
                Err(e) => r == Err::<Value, Error>(e),
            },
    {
        let mut de = self;
        de.data = data;
        de.offset = 0;
        let mut skip: usize = 0;
        if data.len() > 0 && data[0] == TAG_VERSION {
            if data.len() < 2 {
                return Err(Error::Truncated { at: 1 });
            }
            de.data = slice_subrange(data, 2, data.len());
            skip = 2;
        }
        match de.parse() {
            Ok(v) => Ok(v),
            Err(e) => Err(e.shift(skip)),
        }
    }
}

/// Decodes a stream: the value at the start of its payload, after the
/// optional header. Bytes after that value are not read; offsets in errors
/// count from the start of `data`.
pub fn decode(data: &[u8]) -> (r: Result<Value, Error>)
    ensures
        match decoded(data@) {
            Ok(m) => r matches Ok(v) && v.model() == m,
            Err(e) => r == Err::<Value, Error>(e),
        },
{
    Deserializer::new().deserialize(data)
}

} // verus!
