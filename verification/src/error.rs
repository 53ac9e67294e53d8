//! The error taxonomy of the service, with the exact text of each error
//! message.

use vstd::prelude::*;
use vstd::string::StringExecFns;

use crate::pb::{
    CommandResponse, CommandResponseV, KvpairV, Value, ValueV, STATUS_BAD_REQUEST,
    STATUS_INTERNAL, STATUS_NOT_FOUND,
};
use crate::text::{i64_dec, spec_i64_dec, spec_u64_dec, u64_dec};

verus! {

/// Every failure the service can report. Per-request errors become a
/// response on the same stream; frame errors close the logical stream;
/// handshake errors close the connection.
#[derive(Debug, Clone, PartialEq)]
pub enum KvError {
    /// A lookup found nothing under (table, key).
    NotFound(String, String),
    /// The request carried no variant, or one the route cannot take.
    InvalidCommand(String),
    /// A value could not be converted to the named kind.
    ConvertError(Value, &'static str),
    /// The storage backend failed an operation (op, table, key, detail).
    StorageError(&'static str, String, String, String),
    /// A message could not be encoded for the wire.
    EncodeError(String),
    /// Bytes from the wire could not be decoded as a message.
    DecodeError(String),
    /// A frame header or length was invalid.
    FrameError(String),
    /// A certificate or key could not be parsed (role, item).
    CertificateParseError(&'static str, &'static str),
    /// An I/O failure from the transport.
    IOError(String),
    /// An invariant violation.
    Internal(String),
    /// The stream multiplexer failed.
    YamuxConnectionError(String),
    /// The QUIC connection failed.
    QuicConnectionError(String),
    /// The embedded-disk storage failed.
    SledError(String),
}

/// Mathematical view of a [`KvError`].
#[verifier::ext_equal]
pub enum KvErrorV {
    NotFound(Seq<char>, Seq<char>),
    InvalidCommand(Seq<char>),
    ConvertError(ValueV, Seq<char>),
    StorageError(Seq<char>, Seq<char>, Seq<char>, Seq<char>),
    EncodeError(Seq<char>),
    DecodeError(Seq<char>),
    FrameError(Seq<char>),
    CertificateParseError(Seq<char>, Seq<char>),
    IOError(Seq<char>),
    Internal(Seq<char>),
    YamuxConnectionError(Seq<char>),
    QuicConnectionError(Seq<char>),
    SledError(Seq<char>),
}

impl View for KvError {
    type V = KvErrorV;

    open spec fn view(&self) -> KvErrorV {
        match self {
            KvError::NotFound(t, k) => KvErrorV::NotFound(t@, k@),
            KvError::InvalidCommand(m) => KvErrorV::InvalidCommand(m@),
            KvError::ConvertError(v, k) => KvErrorV::ConvertError(v@, k@),
            KvError::StorageError(op, t, k, d) => KvErrorV::StorageError(op@, t@, k@, d@),
            KvError::EncodeError(d) => KvErrorV::EncodeError(d@),
            KvError::DecodeError(d) => KvErrorV::DecodeError(d@),
            KvError::FrameError(d) => KvErrorV::FrameError(d@),
            KvError::CertificateParseError(a, b) => KvErrorV::CertificateParseError(a@, b@),
            KvError::IOError(d) => KvErrorV::IOError(d@),
            KvError::Internal(d) => KvErrorV::Internal(d@),
            KvError::YamuxConnectionError(d) => KvErrorV::YamuxConnectionError(d@),
            KvError::QuicConnectionError(d) => KvErrorV::QuicConnectionError(d@),
            KvError::SledError(d) => KvErrorV::SledError(d@),
        }
    }
}

/// The canonical textual form of a value, as it appears in error messages.
/// A string is inserted verbatim between quotes; a float is shown by its
/// bit pattern.
pub open spec fn spec_value_text(v: ValueV) -> Seq<char> {
    "Value { value: "@ + match v {
        ValueV::Null => "None"@,
        ValueV::Str(s) => "Some(String(\""@ + s + "\"))"@,
        ValueV::Int(i) => "Some(Integer("@ + spec_i64_dec(i as int) + "))"@,
        ValueV::Bin(b) => "Some(Binary(["@ + spec_byte_list(b) + "]))"@,
        ValueV::Bool(b) => if b {
            "Some(Bool(true))"@
        } else {
            "Some(Bool(false))"@
        },
        ValueV::FloatBits(f) => "Some(Float("@ + spec_u64_dec(f as nat) + "))"@,
    } + " }"@
}

/// A comma-separated decimal list of bytes.
pub open spec fn spec_byte_list(b: Seq<u8>) -> Seq<char>
    decreases b.len(),
{
    if b.len() == 0 {
        Seq::<char>::empty()
    } else if b.len() == 1 {
        spec_u64_dec(b[0] as nat)
    } else {
        spec_u64_dec(b[0] as nat) + ", "@ + spec_byte_list(b.drop_first())
    }
}

/// The message of each error, exactly.
pub open spec fn spec_message(e: KvErrorV) -> Seq<char> {
    match e {
        KvErrorV::NotFound(t, k) => "Not found for table: "@ + t + ", key: "@ + k,
        KvErrorV::InvalidCommand(m) => "Cannot parse command: `"@ + m + "`"@,
        KvErrorV::ConvertError(v, k) => "Cannot convert value "@ + spec_value_text(v) + " to "@
            + k,
        KvErrorV::StorageError(op, t, k, d) => "Cannot process command "@ + op
            + " with table: "@ + t + ", key: "@ + k + ". Error: "@ + d,
        KvErrorV::EncodeError(_) => "Failed to encode protobuf message"@,
        KvErrorV::DecodeError(_) => "Failed to decode protobuf message"@,
        KvErrorV::FrameError(d) => "Frame error: "@ + d,
        KvErrorV::CertificateParseError(a, b) => "Failed to parse certificate: "@ + a + "-"@ + b,
        KvErrorV::IOError(d) => "IO error: "@ + d,
        KvErrorV::Internal(d) => "Internal error: "@ + d,
        KvErrorV::YamuxConnectionError(_) => "Yamux Connection error"@,
        KvErrorV::QuicConnectionError(_) => "Quic connection error"@,
        KvErrorV::SledError(_) => "Failed to access sled db"@,
    }
}

/// Renders the tail of a byte list, starting at index `from`.
fn byte_list_from(b: &Vec<u8>, from: usize) -> (s: String)
    requires
        from <= b@.len(),
    ensures
        s@ == spec_byte_list(b@.subrange(from as int, b@.len() as int)),
    decreases b@.len() - from,
{
    if from == b.len() {
        String::new()
    } else if from + 1 == b.len() {
        u64_dec(b[from] as u64)
    } else {
        let mut s = u64_dec(b[from] as u64);
        proof {
            reveal_strlit(", ");
        }
        s.append(", ");
        s.append(byte_list_from(b, from + 1).as_str());
        proof {
            let tail = b@.subrange(from as int, b@.len() as int);
            assert(tail.drop_first() =~= b@.subrange(from + 1, b@.len() as int));
        }
        s
    }
}

/// Renders a value in its canonical textual form.
pub fn value_text(v: &Value) -> (s: String)
    ensures
        s@ == spec_value_text(v@),
{
    let mut s: String = "Value { value: ".to_owned();
    match v {
        Value::Null => {
            s.append("None");
        },
        Value::Str(text) => {
            s.append("Some(String(\"");
            s.append(text.as_str());
            s.append("\"))");
        },
        Value::Int(i) => {
            s.append("Some(Integer(");
            s.append(i64_dec(*i).as_str());
            s.append("))");
        },
        Value::Bin(b) => {
            s.append("Some(Binary([");
            s.append(byte_list_from(b, 0).as_str());
            s.append("]))");
            proof {
                assert(b@.subrange(0, b@.len() as int) =~= b@);
            }
        },
        Value::Bool(flag) => {
            if *flag {
                s.append("Some(Bool(true))");
            } else {
                s.append("Some(Bool(false))");
            }
        },
        Value::FloatBits(f) => {
            s.append("Some(Float(");
            s.append(u64_dec(*f).as_str());
            s.append("))");
        },
    }
    s.append(" }");
    s
}

/// The status an error is reported under: 404 for a missed lookup, 400
/// for a malformed command, 500 for everything else.
pub open spec fn error_status(e: KvErrorV) -> u32 {
    match e {
        KvErrorV::NotFound(_, _) => STATUS_NOT_FOUND,
        KvErrorV::InvalidCommand(_) => STATUS_BAD_REQUEST,
        _ => STATUS_INTERNAL,
    }
}

/// The response an error is encoded into: its status, its message, and
/// no payload.
pub open spec fn error_resp(e: KvErrorV) -> CommandResponseV {
    CommandResponseV {
        status: error_status(e),
        message: spec_message(e),
        values: Seq::<ValueV>::empty(),
        pairs: Seq::<KvpairV>::empty(),
    }
}

impl CommandResponse {
    /// Encodes an error into the response sent back on the same stream.
    pub fn of_error(e: KvError) -> (r: Self)
        ensures
            r@ == error_resp(e@),
    {
        let status: u32 = match &e {
            KvError::NotFound(_, _) => STATUS_NOT_FOUND,
            KvError::InvalidCommand(_) => STATUS_BAD_REQUEST,
            _ => STATUS_INTERNAL,
        };
        CommandResponse { status, message: e.message(), values: Vec::new(), pairs: Vec::new() }
    }
}

impl KvError {
    /// The human-readable message of this error, as it appears in the
    /// `message` field of an error response.
    pub fn message(&self) -> (s: String)
        ensures
            s@ == spec_message(self@),
    {
        match self {
            KvError::NotFound(t, k) => {
                let mut s: String = "Not found for table: ".to_owned();
                s.append(t.as_str());
                s.append(", key: ");
                s.append(k.as_str());
                s
            },
            KvError::InvalidCommand(m) => {
                let mut s: String = "Cannot parse command: `".to_owned();
                s.append(m.as_str());
                s.append("`");
                s
            },
            KvError::ConvertError(v, k) => {
                let mut s: String = "Cannot convert value ".to_owned();
                s.append(value_text(v).as_str());
                s.append(" to ");
                s.append(k);
                s
            },
            KvError::StorageError(op, t, k, d) => {
                let mut s: String = "Cannot process command ".to_owned();
                s.append(op);
                s.append(" with table: ");
                s.append(t.as_str());
                s.append(", key: ");
                s.append(k.as_str());
                s.append(". Error: ");
                s.append(d.as_str());
                s
            },
            KvError::EncodeError(_) => "Failed to encode protobuf message".to_owned(),
            KvError::DecodeError(_) => "Failed to decode protobuf message".to_owned(),
            KvError::FrameError(d) => {
                let mut s: String = "Frame error: ".to_owned();
                s.append(d.as_str());
                s
            },
            KvError::CertificateParseError(a, b) => {
                let mut s: String = "Failed to parse certificate: ".to_owned();
                s.append(a);
                s.append("-");
                s.append(b);
                s
            },
            KvError::IOError(d) => {
                let mut s: String = "IO error: ".to_owned();
                s.append(d.as_str());
                s
            },
            KvError::Internal(d) => {
                let mut s: String = "Internal error: ".to_owned();
                s.append(d.as_str());
                s
            },
            KvError::YamuxConnectionError(_) => "Yamux Connection error".to_owned(),
            KvError::QuicConnectionError(_) => "Quic connection error".to_owned(),
            KvError::SledError(_) => "Failed to access sled db".to_owned(),
        }
    }
}

} // verus!
