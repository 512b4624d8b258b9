use vstd::prelude::*;

verus! {

/// The element kind of a typed view over an array buffer.
#[derive(Debug, Clone, Copy, PartialEq, Eq, Structural)]
pub enum ArrayBufferViewType {
    Int8Array,
    Uint8Array,
    Uint8ClampedArray,
    Int16Array,
    Uint16Array,
    Int32Array,
    Uint32Array,
    Float32Array,
    Float64Array,
    BigInt64Array,
    BigUint64Array,
    DataView,
}

/// The kind of an error value.
#[derive(Debug, Clone, Copy, PartialEq, Eq, Structural)]
pub enum ErrorType {
    EvalError,
    RangeError,
    ReferenceError,
    SyntaxError,
    TypeError,
    UriError,
    Unknown,
}

/// A value of the structured-clone model.
///
/// Doubles (`Double`, `Date`, `NumberObject`) are held as the eight bytes of the
/// IEEE-754 value in the host's byte order (`f64::to_ne_bytes`), which is how
/// the wire carries them. Objects, maps and sets keep their entries in order:
/// that order is the order on the wire.
#[derive(Debug, PartialEq)]
pub enum Value {
    Undefined,
    Null,
    Boolean(bool),
    Int32(i32),
    Uint32(u32),
    Double([u8; 8]),
    BigInt(i64),
    /// Text, and whether it is tagged as a two-byte string.
    String(String, bool),
    ObjectReference { id: u32 },
    Object(Vec<(String, Value)>),
    Array(Vec<Value>),
    Date([u8; 8]),
    NumberObject([u8; 8]),
    BigIntObject(),
    StringObject(String),
    RegExp { expr: String, flags: u32 },
    JsMap(Vec<(Value, Value)>),
    JsSet(Vec<Value>),
    ArrayBuffer(Vec<u8>),
    ArrayBufferTransfer { transfer_id: u32 },
    ArrayBufferView { ty: ArrayBufferViewType, byte_offset: u32, byte_length: u32, buffer: Vec<u8> },
    SharedArrayBuffer { transfer_id: u32 },
    Error { ty: ErrorType, message: Option<String>, stack: Option<String> },
}

impl Value {
    pub fn is_undefined(&self) -> (r: bool)
        ensures
            r == (*self is Undefined),
    {
        match self {
            Value::Undefined => true,
            _ => false,
        }
    }

    pub fn is_null(&self) -> (r: bool)
        ensures
            r == (*self is Null),
    {
        match self {
            Value::Null => true,
            _ => false,
        }
    }

    pub fn is_boolean(&self) -> (r: bool)
        ensures
            r == (*self is Boolean),
    {
        match self {
            Value::Boolean(_) => true,
            _ => false,
        }
    }

    pub fn is_int32(&self) -> (r: bool)
        ensures
            r == (*self is Int32),
    {
        match self {
            Value::Int32(_) => true,
            _ => false,
        }
    }

    pub fn is_uint32(&self) -> (r: bool)
        ensures
            r == (*self is Uint32),
    {
        match self {
            Value::Uint32(_) => true,
            _ => false,
        }
    }

    pub fn is_double(&self) -> (r: bool)
        ensures
            r == (*self is Double),
    {
        match self {
            Value::Double(_) => true,
            _ => false,
        }
    }

    pub fn is_bigint(&self) -> (r: bool)
        ensures
            r == (*self is BigInt),
    {
        match self {
            Value::BigInt(_) => true,
            _ => false,
        }
    }

    pub fn is_string(&self) -> (r: bool)
        ensures
            r == (*self is String),
    {
        match self {
            Value::String(..) => true,
            _ => false,
        }
    }

    pub fn is_object_reference(&self) -> (r: bool)
        ensures
            r == (*self is ObjectReference),
    {
        match self {
            Value::ObjectReference { .. } => true,
            _ => false,
        }
    }

    pub fn is_object(&self) -> (r: bool)
        ensures
            r == (*self is Object),
    {
        match self {
            Value::Object(_) => true,
            _ => false,
        }
    }

    pub fn is_array(&self) -> (r: bool)
        ensures
            r == (*self is Array),
    {
        match self {
            Value::Array(_) => true,
            _ => false,
        }
    }

    pub fn is_date(&self) -> (r: bool)
        ensures
            r == (*self is Date),
    {
        match self {
            Value::Date(_) => true,
            _ => false,
        }
    }

    pub fn is_number_object(&self) -> (r: bool)
        ensures
            r == (*self is NumberObject),
    {
        match self {
            Value::NumberObject(_) => true,
            _ => false,
        }
    }

    pub fn is_bigint_object(&self) -> (r: bool)
        ensures
            r == (*self is BigIntObject),
    {
        match self {
            Value::BigIntObject() => true,
            _ => false,
        }
    }

    pub fn is_string_object(&self) -> (r: bool)
        ensures
            r == (*self is StringObject),
    {
        match self {
            Value::StringObject(_) => true,
            _ => false,
        }
    }

    pub fn is_regexp(&self) -> (r: bool)
        ensures
            r == (*self is RegExp),
    {
        match self {
            Value::RegExp { .. } => true,
            _ => false,
        }
    }

    pub fn is_map(&self) -> (r: bool)
        ensures
            r == (*self is JsMap),
    {
        match self {
            Value::JsMap(_) => true,
            _ => false,
        }
    }

    pub fn is_set(&self) -> (r: bool)
        ensures
            r == (*self is JsSet),
    {
        match self {
            Value::JsSet(_) => true,
            _ => false,
        }
    }

    pub fn is_array_buffer(&self) -> (r: bool)
        ensures
            r == (*self is ArrayBuffer),
    {
        match self {
            Value::ArrayBuffer(_) => true,
            _ => false,
        }
    }

    pub fn is_array_buffer_transfer(&self) -> (r: bool)
        ensures
            r == (*self is ArrayBufferTransfer),
    {
        match self {
            Value::ArrayBufferTransfer { .. } => true,
            _ => false,
        }
    }

    pub fn is_array_buffer_view(&self) -> (r: bool)
        ensures
            r == (*self is ArrayBufferView),
    {
        match self {
            Value::ArrayBufferView { .. } => true,
            _ => false,
        }
    }

    pub fn is_shared_array_buffer(&self) -> (r: bool)
        ensures
            r == (*self is SharedArrayBuffer),
    {
        match self {
            Value::SharedArrayBuffer { .. } => true,
            _ => false,
        }
    }

    pub fn is_error(&self) -> (r: bool)
        ensures
            r == (*self is Error),
    {
        match self {
            Value::Error { .. } => true,
            _ => false,
        }
    }
}

/// The mathematical content of a [`Value`]: text as characters, buffers and
/// doubles as byte sequences, children as sequences of models.
pub ghost enum ValueModel {
    Undefined,
    Null,
    Boolean(bool),
    Int32(i32),
    Uint32(u32),
    Double(Seq<u8>),
    BigInt(i64),
    String(Seq<char>, bool),
    ObjectReference { id: u32 },
    Object(Seq<(Seq<char>, ValueModel)>),
    Array(Seq<ValueModel>),
    Date(Seq<u8>),
    NumberObject(Seq<u8>),
    BigIntObject,
    StringObject(Seq<char>),
    RegExp { expr: Seq<char>, flags: u32 },
    JsMap(Seq<(ValueModel, ValueModel)>),
    JsSet(Seq<ValueModel>),
    ArrayBuffer(Seq<u8>),
    ArrayBufferTransfer { transfer_id: u32 },
    ArrayBufferView { ty: ArrayBufferViewType, byte_offset: u32, byte_length: u32, buffer: Seq<u8> },
    SharedArrayBuffer { transfer_id: u32 },
    Error { ty: ErrorType, message: Option<Seq<char>>, stack: Option<Seq<char>> },
}

pub open spec fn text_model(t: Option<String>) -> Option<Seq<char>> {
    match t {
        Some(s) => Some(s@),
        None => None,
    }
}

impl Value {
    pub open spec fn model(self) -> ValueModel
        decreases self,
    {
        match self {
            Value::Undefined => ValueModel::Undefined,
            Value::Null => ValueModel::Null,
            Value::Boolean(b) => ValueModel::Boolean(b),
            Value::Int32(i) => ValueModel::Int32(i),
            Value::Uint32(u) => ValueModel::Uint32(u),
            Value::Double(d) => ValueModel::Double(d@),
            Value::BigInt(i) => ValueModel::BigInt(i),
            Value::String(s, two_byte) => ValueModel::String(s@, two_byte),
            Value::ObjectReference { id } => ValueModel::ObjectReference { id },
            Value::Object(entries) => ValueModel::Object(entries_model(entries@)),
            Value::Array(items) => ValueModel::Array(items_model(items@)),
            Value::Date(d) => ValueModel::Date(d@),
            Value::NumberObject(d) => ValueModel::NumberObject(d@),
            Value::BigIntObject() => ValueModel::BigIntObject,
            Value::StringObject(s) => ValueModel::StringObject(s@),
            Value::RegExp { expr, flags } => ValueModel::RegExp { expr: expr@, flags },
            Value::JsMap(entries) => ValueModel::JsMap(pairs_model(entries@)),
            Value::JsSet(items) => ValueModel::JsSet(items_model(items@)),
            Value::ArrayBuffer(b) => ValueModel::ArrayBuffer(b@),
            Value::ArrayBufferTransfer { transfer_id } => ValueModel::ArrayBufferTransfer {
                transfer_id,
            },
            Value::ArrayBufferView { ty, byte_offset, byte_length, buffer } =>
                ValueModel::ArrayBufferView { ty, byte_offset, byte_length, buffer: buffer@ },
            Value::SharedArrayBuffer { transfer_id } => ValueModel::SharedArrayBuffer {
                transfer_id,
            },
            Value::Error { ty, message, stack } => ValueModel::Error {
                ty,
                message: text_model(message),
                stack: text_model(stack),
            },
        }
    }
}

/// The models of a run of values.
pub open spec fn items_model(s: Seq<Value>) -> Seq<ValueModel>
    decreases s,
{
    Seq::new(
        s.len(),
        |i: int|
            if 0 <= i < s.len() {
                s[i].model()
            } else {
                ValueModel::Undefined
            },
    )
}

/// The models of the fields of an object.
pub open spec fn entries_model(s: Seq<(String, Value)>) -> Seq<(Seq<char>, ValueModel)>
    decreases s,
{
    Seq::new(
        s.len(),
        |i: int|
            if 0 <= i < s.len() {
                (s[i].0@, s[i].1.model())
            } else {
                (Seq::empty(), ValueModel::Undefined)
            },
    )
}

/// The models of the entries of a map.
pub open spec fn pairs_model(s: Seq<(Value, Value)>) -> Seq<(ValueModel, ValueModel)>
    decreases s,
{
    Seq::new(
        s.len(),
        |i: int|
            if 0 <= i < s.len() {
                (s[i].0.model(), s[i].1.model())
            } else {
                (ValueModel::Undefined, ValueModel::Undefined)
            },
    )
}

} // verus!
