//! The message schema: values, key-value pairs, command requests and
//! responses, together with their mathematical views.

use vstd::prelude::*;

verus! {

/// HTTP-style status for a successful command.
pub const STATUS_OK: u32 = 200;

/// Status of a response to a malformed or misrouted command.
pub const STATUS_BAD_REQUEST: u32 = 400;

/// Status of a response to a lookup that found nothing.
pub const STATUS_NOT_FOUND: u32 = 404;

/// Status of a response reporting an internal or storage failure.
pub const STATUS_INTERNAL: u32 = 500;

/// Status 0 is reserved for the unsubscribe acknowledgment, the
/// end-of-stream sentinel of a subscription stream.
pub const STATUS_SENTINEL: u32 = 0;

/// A tagged union of the value kinds the store can hold. `Null` doubles as
/// the default value and as "no previous value". A floating-point value is
/// carried by its raw bit pattern, so that the logic around it stays exact.
#[derive(Debug, Clone, PartialEq, PartialOrd)]
pub enum Value {
    Null,
    Str(String),
    Int(i64),
    Bin(Vec<u8>),
    Bool(bool),
    FloatBits(u64),
}

/// Mathematical view of a [`Value`].
#[verifier::ext_equal]
pub enum ValueV {
    Null,
    Str(Seq<char>),
    Int(i64),
    Bin(Seq<u8>),
    Bool(bool),
    FloatBits(u64),
}

impl View for Value {
    type V = ValueV;

    open spec fn view(&self) -> ValueV {
        match self {
            Value::Null => ValueV::Null,
            Value::Str(s) => ValueV::Str(s@),
            Value::Int(i) => ValueV::Int(*i),
            Value::Bin(b) => ValueV::Bin(b@),
            Value::Bool(b) => ValueV::Bool(*b),
            Value::FloatBits(f) => ValueV::FloatBits(*f),
        }
    }
}

impl Default for Value {
    fn default() -> (r: Self)
        ensures
            r@ == ValueV::Null,
    {
        Value::Null
    }
}

impl From<String> for Value {
    fn from(s: String) -> (r: Self) {
        Value::Str(s)
    }
}

impl vstd::std_specs::convert::FromSpecImpl<String> for Value {
    open spec fn obeys_from_spec() -> bool {
        true
    }

    open spec fn from_spec(s: String) -> Self {
        Value::Str(s)
    }
}

impl<'a> From<&'a str> for Value {
    fn from(s: &'a str) -> (r: Self) {
        Value::Str(s.to_owned())
    }
}

impl<'a> vstd::std_specs::convert::FromSpecImpl<&'a str> for Value {
    open spec fn obeys_from_spec() -> bool {
        false
    }

    open spec fn from_spec(s: &'a str) -> Self {
        Value::Null
    }
}

impl From<i64> for Value {
    fn from(i: i64) -> (r: Self) {
        Value::Int(i)
    }
}

impl vstd::std_specs::convert::FromSpecImpl<i64> for Value {
    open spec fn obeys_from_spec() -> bool {
        true
    }

    open spec fn from_spec(i: i64) -> Self {
        Value::Int(i)
    }
}

impl From<bool> for Value {
    fn from(b: bool) -> (r: Self) {
        Value::Bool(b)
    }
}

impl vstd::std_specs::convert::FromSpecImpl<bool> for Value {
    open spec fn obeys_from_spec() -> bool {
        true
    }

    open spec fn from_spec(b: bool) -> Self {
        Value::Bool(b)
    }
}

impl From<Vec<u8>> for Value {
    fn from(b: Vec<u8>) -> (r: Self) {
        Value::Bin(b)
    }
}

impl vstd::std_specs::convert::FromSpecImpl<Vec<u8>> for Value {
    open spec fn obeys_from_spec() -> bool {
        true
    }

    open spec fn from_spec(b: Vec<u8>) -> Self {
        Value::Bin(b)
    }
}

impl Value {
    /// The integer a value carries, or a conversion error for every other
    /// kind of value.
    pub fn to_integer(&self) -> (r: Result<i64, crate::error::KvError>)
        ensures
            match r {
                Ok(i) => self@ == ValueV::Int(i),
                Err(e) => !(self@ is Int) && e@ == crate::error::KvErrorV::ConvertError(
                    self@,
                    "Integer"@,
                ),
            },
    {
        match self {
            Value::Int(i) => Ok(*i),
            _ => Err(crate::error::KvError::ConvertError(self.dup(), "Integer")),
        }
    }

    /// A structural copy of the value.
    pub fn dup(&self) -> (r: Self)
        ensures
            r@ == self@,
    {
        match self {
            Value::Null => Value::Null,
            Value::Str(s) => Value::Str(s.clone()),
            Value::Int(i) => Value::Int(*i),
            Value::Bin(b) => Value::Bin(clone_bytes(b)),
            Value::Bool(b) => Value::Bool(*b),
            Value::FloatBits(f) => Value::FloatBits(*f),
        }
    }

    /// Structural equality of two values.
    pub fn same(&self, other: &Value) -> (r: bool)
        ensures
            r == (self@ == other@),
    {
        match (self, other) {
            (Value::Null, Value::Null) => true,
            (Value::Str(a), Value::Str(b)) => String::eq(a, b),
            (Value::Int(a), Value::Int(b)) => *a == *b,
            (Value::Bin(a), Value::Bin(b)) => bytes_eq(a, b),
            (Value::Bool(a), Value::Bool(b)) => *a == *b,
            (Value::FloatBits(a), Value::FloatBits(b)) => *a == *b,
            _ => false,
        }
    }
}

/// Structural copy of a byte vector.
pub fn clone_bytes(b: &Vec<u8>) -> (r: Vec<u8>)
    ensures
        r@ == b@,
{
    let mut out: Vec<u8> = Vec::new();
    let mut i: usize = 0;
    while i < b.len()
        invariant
            i <= b.len(),
            out@ == b@.subrange(0, i as int),
        decreases b.len() - i,
    {
        out.push(b[i]);
        i = i + 1;
        proof {
            assert(out@ =~= b@.subrange(0, i as int));
        }
    }
    proof {
        assert(out@ =~= b@);
    }
    out
}

/// Structural equality of two byte vectors.
pub fn bytes_eq(a: &Vec<u8>, b: &Vec<u8>) -> (r: bool)
    ensures
        r == (a@ == b@),
{
    if a.len() != b.len() {
        return false;
    }
    let mut i: usize = 0;
    while i < a.len()
        invariant
            i <= a.len(),
            a@.len() == b@.len(),
            forall|j: int| 0 <= j < i ==> a@[j] == b@[j],
        decreases a.len() - i,
    {
        if a[i] != b[i] {
            return false;
        }
        i = i + 1;
    }
    proof {
        assert(a@ =~= b@);
    }
    true
}

/// A key together with the value stored under it.
#[derive(Debug, Clone, PartialEq, PartialOrd)]
pub struct Kvpair {
    pub key: String,
    pub value: Value,
}

/// Mathematical view of a [`Kvpair`].
#[verifier::ext_equal]
pub struct KvpairV {
    pub key: Seq<char>,
    pub value: ValueV,
}

impl View for Kvpair {
    type V = KvpairV;

    open spec fn view(&self) -> KvpairV {
        KvpairV { key: self.key@, value: self.value@ }
    }
}

impl Kvpair {
    pub fn new(key: &str, value: Value) -> (r: Self)
        ensures
            r@ == (KvpairV { key: key@, value: value@ }),
    {
        Kvpair { key: key.to_owned(), value }
    }

    /// A structural copy of the pair.
    pub fn dup(&self) -> (r: Self)
        ensures
            r@ == self@,
    {
        Kvpair { key: self.key.clone(), value: self.value.dup() }
    }

    /// Structural equality of two pairs.
    pub fn same(&self, other: &Kvpair) -> (r: bool)
        ensures
            r == (self@ == other@),
    {
        self.key == other.key && self.value.same(&other.value)
    }
}

/// View of a sequence of values.
pub open spec fn values_view(s: Seq<Value>) -> Seq<ValueV> {
    s.map_values(|v: Value| v@)
}

/// View of a sequence of pairs.
pub open spec fn pairs_view(s: Seq<Kvpair>) -> Seq<KvpairV> {
    s.map_values(|p: Kvpair| p@)
}

/// View of a sequence of strings.
pub open spec fn keys_view(s: Seq<String>) -> Seq<Seq<char>> {
    s.map_values(|k: String| k@)
}

/// What the server answers: an HTTP-style status, a human-readable message,
/// and the values or pairs the command produced.
#[derive(Debug, Clone, PartialEq)]
pub struct CommandResponse {
    pub status: u32,
    pub message: String,
    pub values: Vec<Value>,
    pub pairs: Vec<Kvpair>,
}

/// Mathematical view of a [`CommandResponse`].
#[verifier::ext_equal]
pub struct CommandResponseV {
    pub status: u32,
    pub message: Seq<char>,
    pub values: Seq<ValueV>,
    pub pairs: Seq<KvpairV>,
}

impl View for CommandResponse {
    type V = CommandResponseV;

    open spec fn view(&self) -> CommandResponseV {
        CommandResponseV {
            status: self.status,
            message: self.message@,
            values: values_view(self.values@),
            pairs: pairs_view(self.pairs@),
        }
    }
}

impl CommandResponseV {
    /// The view of a response carrying `values` with status 200.
    pub open spec fn ok_values(values: Seq<ValueV>) -> CommandResponseV {
        CommandResponseV {
            status: STATUS_OK,
            message: Seq::<char>::empty(),
            values: values,
            pairs: Seq::<KvpairV>::empty(),
        }
    }

    /// The view of a response carrying `pairs` with status 200.
    pub open spec fn ok_pairs(pairs: Seq<KvpairV>) -> CommandResponseV {
        CommandResponseV {
            status: STATUS_OK,
            message: Seq::<char>::empty(),
            values: Seq::<ValueV>::empty(),
            pairs: pairs,
        }
    }

    /// The view of the unsubscribe acknowledgment: status 0, everything
    /// empty.
    pub open spec fn sentinel() -> CommandResponseV {
        CommandResponseV {
            status: STATUS_SENTINEL,
            message: Seq::<char>::empty(),
            values: Seq::<ValueV>::empty(),
            pairs: Seq::<KvpairV>::empty(),
        }
    }
}

impl Default for CommandResponse {
    fn default() -> (r: Self)
        ensures
            r@ == CommandResponseV::sentinel(),
    {
        CommandResponse {
            status: 0,
            message: String::new(),
            values: Vec::new(),
            pairs: Vec::new(),
        }
    }
}

impl CommandResponse {
    /// A bare 200 OK response with no payload.
    pub fn ok() -> (r: Self)
        ensures
            r@ == CommandResponseV::ok_values(Seq::<ValueV>::empty()),
    {
        CommandResponse {
            status: STATUS_OK,
            message: String::new(),
            values: Vec::new(),
            pairs: Vec::new(),
        }
    }

    /// The unsubscribe acknowledgment: a default response, whose status 0
    /// tells the subscriber that its stream has ended.
    pub fn unsubscribe_ack() -> (r: Self)
        ensures
            r@ == CommandResponseV::sentinel(),
    {
        CommandResponse::default()
    }

    /// A 200 OK response carrying one value.
    pub fn of_value(v: Value) -> (r: Self)
        ensures
            r@ == CommandResponseV::ok_values(seq![v@]),
    {
        let mut values: Vec<Value> = Vec::new();
        values.push(v);
        let r = CommandResponse {
            status: STATUS_OK,
            message: String::new(),
            values,
            pairs: Vec::new(),
        };
        proof {
            assert(values_view(r.values@) =~= seq![r.values@[0]@]);
        }
        r
    }

    /// A 200 OK response carrying a list of values.
    pub fn of_values(values: Vec<Value>) -> (r: Self)
        ensures
            r@ == CommandResponseV::ok_values(values_view(values@)),
    {
        CommandResponse {
            status: STATUS_OK,
            message: String::new(),
            values,
            pairs: Vec::new(),
        }
    }

    /// A 200 OK response carrying a list of pairs.
    pub fn of_pairs(pairs: Vec<Kvpair>) -> (r: Self)
        ensures
            r@ == CommandResponseV::ok_pairs(pairs_view(pairs@)),
    {
        CommandResponse {
            status: STATUS_OK,
            message: String::new(),
            values: Vec::new(),
            pairs,
        }
    }

    /// A structural copy of the response.
    pub fn dup(&self) -> (r: Self)
        ensures
            r@ == self@,
    {
        let mut values: Vec<Value> = Vec::new();
        let mut i: usize = 0;
        while i < self.values.len()
            invariant
                i <= self.values.len(),
                values@.len() == i,
                forall|j: int| 0 <= j < i ==> values@[j]@ == self.values@[j]@,
            decreases self.values.len() - i,
        {
            values.push(self.values[i].dup());
            i = i + 1;
        }
        let mut pairs: Vec<Kvpair> = Vec::new();
        let mut k: usize = 0;
        while k < self.pairs.len()
            invariant
                k <= self.pairs.len(),
                pairs@.len() == k,
                forall|j: int| 0 <= j < k ==> pairs@[j]@ == self.pairs@[j]@,
            decreases self.pairs.len() - k,
        {
            pairs.push(self.pairs[k].dup());
            k = k + 1;
        }
        let r = CommandResponse {
            status: self.status,
            message: self.message.clone(),
            values,
            pairs,
        };
        proof {
            assert(values_view(r.values@) =~= values_view(self.values@));
            assert(pairs_view(r.pairs@) =~= pairs_view(self.pairs@));
        }
        r
    }
}

} // verus!
