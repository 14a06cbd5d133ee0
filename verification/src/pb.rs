//! The message types carried on the wire: values, key/value pairs,
//! command requests and command responses, with their mathematical models.

use vstd::prelude::*;
use crate::error::KVError;

verus! {

/// Success status, HTTP-style.
pub const STATUS_OK: u32 = 200;
/// The request carried no recognisable command.
pub const STATUS_BAD_REQUEST: u32 = 400;
/// The requested key was absent.
pub const STATUS_NOT_FOUND: u32 = 404;
/// Any other internal failure.
pub const STATUS_INTERNAL: u32 = 500;

/// The mathematical model of a [`Value`]: exactly one tagged alternative,
/// or the distinct "empty" state.
pub enum ValueModel {
    Str(Seq<char>),
    Integer(i64),
    /// A 64-bit floating-point payload, modelled by its IEEE 754 bit pattern.
    Float(u64),
    Boolean(bool),
    Binary(Seq<u8>),
    Empty,
}

/// The unit of data stored and returned: one of string, 64-bit signed
/// integer, 64-bit float (held as its bit pattern), boolean or binary blob.
/// `Empty` is the distinct "no value" marker used as the default.
#[derive(Debug, PartialEq, PartialOrd)]
pub enum Value {
    Str(String),
    Integer(i64),
    /// The bit pattern of a 64-bit float; callers outside the library
    /// convert with `f64::to_bits` / `f64::from_bits`.
    Float(u64),
    Boolean(bool),
    Binary(Vec<u8>),
    Empty,
}

impl View for Value {
    type V = ValueModel;

    open spec fn view(&self) -> ValueModel {
        match self {
            Value::Str(s) => ValueModel::Str(s@),
            Value::Integer(i) => ValueModel::Integer(*i),
            Value::Float(bits) => ValueModel::Float(*bits),
            Value::Boolean(b) => ValueModel::Boolean(*b),
            Value::Binary(bytes) => ValueModel::Binary(bytes@),
            Value::Empty => ValueModel::Empty,
        }
    }
}

impl Clone for Value {
    /// A clone carries the same model.
    fn clone(&self) -> (r: Self)
        ensures
            r@ == self@,
    {
        match self {
            Value::Str(s) => Value::Str(s.clone()),
            Value::Integer(i) => Value::Integer(*i),
            Value::Float(bits) => Value::Float(*bits),
            Value::Boolean(b) => Value::Boolean(*b),
            Value::Binary(bytes) => Value::Binary(bytes.clone()),
            Value::Empty => Value::Empty,
        }
    }
}

impl Default for Value {
    /// The canonical "empty" value.
    fn default() -> (r: Self)
        ensures
            r@ == ValueModel::Empty,
    {
        Value::Empty
    }
}

impl Value {
    pub fn from_string(s: &str) -> (r: Self)
        ensures
            r@ == ValueModel::Str(s@),
    {
        Value::Str(s.to_owned())
    }

    pub fn from_integer(i: i64) -> (r: Self)
        ensures
            r@ == ValueModel::Integer(i),
    {
        Value::Integer(i)
    }

    /// Wraps the bit pattern of a 64-bit float.
    pub fn from_float_bits(bits: u64) -> (r: Self)
        ensures
            r@ == ValueModel::Float(bits),
    {
        Value::Float(bits)
    }

    pub fn from_boolean(b: bool) -> (r: Self)
        ensures
            r@ == ValueModel::Boolean(b),
    {
        Value::Boolean(b)
    }

    pub fn from_binary(bytes: Vec<u8>) -> (r: Self)
        ensures
            r@ == ValueModel::Binary(bytes@),
    {
        Value::Binary(bytes)
    }

    /// Extracts the string payload; any other variant is a type mismatch.
    pub fn try_into_string(self) -> (r: Result<String, KVError>)
        ensures
            match r {
                Ok(s) => self@ == ValueModel::Str(s@),
                Err(e) => !(self@ is Str) && (e matches KVError::ConvertError(v, t)
                    && v == self && t@ == "String"@),
            },
    {
        match self {
            Value::Str(s) => Ok(s),
            other => Err(KVError::ConvertError(other, "String")),
        }
    }

    /// Extracts the integer payload; any other variant is a type mismatch.
    pub fn try_into_integer(self) -> (r: Result<i64, KVError>)
        ensures
            match r {
                Ok(i) => self@ == ValueModel::Integer(i),
                Err(e) => !(self@ is Integer) && (e matches KVError::ConvertError(v, t)
                    && v == self && t@ == "Integer"@),
            },
    {
        match self {
            Value::Integer(i) => Ok(i),
            other => Err(KVError::ConvertError(other, "Integer")),
        }
    }

    /// Extracts the float payload as its bit pattern.
    pub fn try_into_float_bits(self) -> (r: Result<u64, KVError>)
        ensures
            match r {
                Ok(bits) => self@ == ValueModel::Float(bits),
                Err(e) => !(self@ is Float) && (e matches KVError::ConvertError(v, t)
                    && v == self && t@ == "Float"@),
            },
    {
        match self {
            Value::Float(bits) => Ok(bits),
            other => Err(KVError::ConvertError(other, "Float")),
        }
    }

    /// Extracts the boolean payload.
    pub fn try_into_boolean(self) -> (r: Result<bool, KVError>)
        ensures
            match r {
                Ok(b) => self@ == ValueModel::Boolean(b),
                Err(e) => !(self@ is Boolean) && (e matches KVError::ConvertError(v, t)
                    && v == self && t@ == "Bool"@),
            },
    {
        match self {
            Value::Boolean(b) => Ok(b),
            other => Err(KVError::ConvertError(other, "Bool")),
        }
    }

    /// Extracts the binary payload.
    pub fn try_into_binary(self) -> (r: Result<Vec<u8>, KVError>)
        ensures
            match r {
                Ok(bytes) => self@ == ValueModel::Binary(bytes@),
                Err(e) => !(self@ is Binary) && (e matches KVError::ConvertError(v, t)
                    && v == self && t@ == "Binary"@),
            },
    {
        match self {
            Value::Binary(bytes) => Ok(bytes),
            other => Err(KVError::ConvertError(other, "Binary")),
        }
    }
}

/// The mathematical model of a [`KvPair`].
pub struct KvPairModel {
    pub key: Seq<char>,
    pub value: ValueModel,
}

/// One key together with its value.
#[derive(Debug, PartialEq, PartialOrd)]
pub struct KvPair {
    pub key: String,
    pub value: Value,
}

impl View for KvPair {
    type V = KvPairModel;

    open spec fn view(&self) -> KvPairModel {
        KvPairModel { key: self.key@, value: self.value@ }
    }
}

impl Clone for KvPair {
    /// A clone carries the same model.
    fn clone(&self) -> (r: Self)
        ensures
            r@ == self@,
    {
        KvPair { key: self.key.clone(), value: self.value.clone() }
    }
}

impl KvPair {
    pub fn new(key: &str, value: Value) -> (r: Self)
        ensures
            r@ == (KvPairModel { key: key@, value: value@ }),
    {
        KvPair { key: key.to_owned(), value }
    }
}

/// Write one pair into a table.
#[derive(Clone)]
pub struct Hset {
    pub table: String,
    pub pair: KvPair,
}

/// Read one key of a table.
#[derive(Clone)]
pub struct Hget {
    pub table: String,
    pub key: String,
}

/// Read every pair of a table.
#[derive(Clone)]
pub struct Hgetall {
    pub table: String,
}

/// Remove one key of a table.
#[derive(Clone)]
pub struct Hdel {
    pub table: String,
    pub key: String,
}

/// The populated alternative of a request.
#[derive(Clone)]
pub enum RequestData {
    Hset(Hset),
    Hget(Hget),
    Hgetall(Hgetall),
    Hdel(Hdel),
}

/// A decoded command. A request whose `request_data` is `None` is the
/// invalid-command condition.
#[derive(Clone)]
pub struct CommandRequest {
    pub request_data: Option<RequestData>,
}

impl CommandRequest {
    pub fn new_hset(table: &str, key: &str, value: Value) -> (r: Self)
        ensures
            r.request_data matches Some(d) && d matches RequestData::Hset(h)
                && h.table@ == table@
                && h.pair@ == (KvPairModel { key: key@, value: value@ }),
    {
        CommandRequest {
            request_data: Some(RequestData::Hset(Hset {
                table: table.to_owned(),
                pair: KvPair::new(key, value),
            })),
        }
    }

    pub fn new_hget(table: &str, key: &str) -> (r: Self)
        ensures
            r.request_data matches Some(d) && d matches RequestData::Hget(h)
                && h.table@ == table@
                && h.key@ == key@,
    {
        CommandRequest {
            request_data: Some(RequestData::Hget(Hget {
                table: table.to_owned(),
                key: key.to_owned(),
            })),
        }
    }

    pub fn new_hgetall(table: &str) -> (r: Self)
        ensures
            r.request_data matches Some(d) && d matches RequestData::Hgetall(h)
                && h.table@ == table@,
    {
        CommandRequest {
            request_data: Some(RequestData::Hgetall(Hgetall { table: table.to_owned() })),
        }
    }

    pub fn new_hdel(table: &str, key: &str) -> (r: Self)
        ensures
            r.request_data matches Some(d) && d matches RequestData::Hdel(h)
                && h.table@ == table@
                && h.key@ == key@,
    {
        CommandRequest {
            request_data: Some(RequestData::Hdel(Hdel {
                table: table.to_owned(),
                key: key.to_owned(),
            })),
        }
    }
}

/// The mathematical model of a [`CommandResponse`].
pub struct CommandResponseModel {
    pub status: u32,
    pub message: Seq<char>,
    pub values: Seq<ValueModel>,
    pub pairs: Seq<KvPairModel>,
}

/// What the engine answers: a status code, a message (empty on success),
/// and exactly one of `values` / `pairs` populated per command type.
#[derive(Clone, Debug, PartialEq)]
pub struct CommandResponse {
    pub status: u32,
    pub message: String,
    pub values: Vec<Value>,
    pub pairs: Vec<KvPair>,
}

impl View for CommandResponse {
    type V = CommandResponseModel;

    open spec fn view(&self) -> CommandResponseModel {
        CommandResponseModel {
            status: self.status,
            message: self.message@,
            values: self.values@.map_values(|v: Value| v@),
            pairs: self.pairs@.map_values(|p: KvPair| p@),
        }
    }
}

/// The model of a success response carrying exactly one value.
pub open spec fn resp_ok_value(v: ValueModel) -> CommandResponseModel {
    CommandResponseModel {
        status: STATUS_OK,
        message: Seq::empty(),
        values: seq![v],
        pairs: Seq::empty(),
    }
}

/// The model of a success response carrying a sequence of values.
pub open spec fn resp_ok_values(vs: Seq<ValueModel>) -> CommandResponseModel {
    CommandResponseModel {
        status: STATUS_OK,
        message: Seq::empty(),
        values: vs,
        pairs: Seq::empty(),
    }
}

/// The model of a success response carrying a sequence of pairs.
pub open spec fn resp_ok_pairs(ps: Seq<KvPairModel>) -> CommandResponseModel {
    CommandResponseModel {
        status: STATUS_OK,
        message: Seq::empty(),
        values: Seq::empty(),
        pairs: ps,
    }
}

impl CommandResponse {
    /// A success response carrying one value.
    pub fn ok_value(v: Value) -> (r: Self)
        ensures
            r@ == resp_ok_value(v@),
    {
        let r = CommandResponse {
            status: STATUS_OK,
            message: String::new(),
            values: vec![v],
            pairs: Vec::new(),
        };
        proof {
            assert(r@.values =~= seq![v@]);
            assert(r@.pairs =~= Seq::<KvPairModel>::empty());
        }
        r
    }

    /// A success response carrying a sequence of values.
    pub fn ok_values(values: Vec<Value>) -> (r: Self)
        ensures
            r@ == resp_ok_values(values@.map_values(|v: Value| v@)),
    {
        let r = CommandResponse {
            status: STATUS_OK,
            message: String::new(),
            values,
            pairs: Vec::new(),
        };
        proof {
            assert(r@.pairs =~= Seq::<KvPairModel>::empty());
        }
        r
    }

    /// A success response carrying a sequence of pairs.
    pub fn ok_pairs(pairs: Vec<KvPair>) -> (r: Self)
        ensures
            r@ == resp_ok_pairs(pairs@.map_values(|p: KvPair| p@)),
    {
        let r = CommandResponse {
            status: STATUS_OK,
            message: String::new(),
            values: Vec::new(),
            pairs,
        };
        proof {
            assert(r@.values =~= Seq::<ValueModel>::empty());
        }
        r
    }
}

} // verus!
