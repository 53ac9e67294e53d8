//! The framing layer: a message goes on the wire as a 4-byte big-endian
//! header and a payload. The header's top bit says the payload is
//! gzipped, which happens whenever the message bytes run past the
//! compression limit; the other 31 bits hold the payload length.

use vstd::prelude::*;

use crate::error::KvError;
use crate::pb::CommandResponse;
use crate::request::{CommandRequest, RequestDataV};
use crate::wire::{spec_le, spec_le_val, spec_pow256};
use crate::wire_req::{dec_request, enc_request, request_fits, spec_dec_request, spec_enc_request};
use crate::wire_resp::{dec_resp, enc_resp, resp_fits, spec_dec_resp, spec_enc_resp};
use crate::{COMPRESSION_LIMIT, MAX_FRAME};

verus! {

/// What gzip at the default level makes of a byte string. The library
/// never states what these bytes are, only that compressing and
/// decompressing invert each other.
pub uninterp spec fn gzip_of(b: Seq<u8>) -> Seq<u8>;

/// Relies on flate2's GzEncoder at the default compression level: its
/// output is a function of the input bytes alone (fixed gzip header, no
/// timestamp), and writing into a vector cannot fail.
#[verifier::external_body]
fn gzip_compress(data: &[u8]) -> (r: Vec<u8>)
    ensures
        r@ == gzip_of(data@),
{
    let mut enc = flate2::write::GzEncoder::new(Vec::new(), flate2::Compression::default());
    std::io::Write::write_all(&mut enc, data).expect("writing to a vector cannot fail");
    enc.finish().expect("finishing an in-memory gzip stream cannot fail")
}

/// Relies on flate2's GzDecoder: decompression inverts compression, so a
/// compressed image is always accepted and gives back what was
/// compressed.
#[verifier::external_body]
fn gzip_decompress(data: &[u8]) -> (r: Result<Vec<u8>, KvError>)
    ensures
        (exists|orig: Seq<u8>| data@ == #[trigger] gzip_of(orig)) ==> r is Ok,
        r matches Ok(out) ==> forall|orig: Seq<u8>|
            data@ == #[trigger] gzip_of(orig) ==> out@ == orig,
{
    let mut decoder = flate2::read::GzDecoder::new(data);
    let mut out: Vec<u8> = Vec::new();
    match std::io::Read::read_to_end(&mut decoder, &mut out) {
        Ok(_) => Ok(out),
        Err(e) => Err(KvError::IOError(e.to_string())),
    }
}

/// The 4 header bytes of a 32-bit word, most significant first.
pub open spec fn spec_header(n: u32) -> Seq<u8> {
    spec_le(n as u64, 4).reverse()
}

/// Whether a message payload can be framed: it must fit the 31-bit
/// length, compressed if it goes over the compression limit.
pub open spec fn frame_ok(payload: Seq<u8>) -> bool {
    &&& payload.len() <= MAX_FRAME
    &&& (payload.len() > COMPRESSION_LIMIT ==> gzip_of(payload).len() <= MAX_FRAME)
}

/// The frame of a message payload: a header and the payload, gzipped
/// with the top header bit set when it runs past the compression limit.
pub open spec fn spec_frame(payload: Seq<u8>) -> Seq<u8> {
    if payload.len() > COMPRESSION_LIMIT {
        spec_header((gzip_of(payload).len() + 0x8000_0000) as u32) + gzip_of(payload)
    } else {
        spec_header(payload.len() as u32) + payload
    }
}

/// The header reads back the word it was written from.
pub proof fn lemma_header_roundtrip(n: u32)
    ensures
        spec_header(n).len() == 4,
        spec_le_val(spec_header(n).reverse()) == n,
{
    assert(spec_pow256(4) == 0x1_0000_0000) by {
        reveal_with_fuel(spec_pow256, 5);
    }
    crate::wire::lemma_le_roundtrip(n as u64, 4);
    assert(spec_header(n).reverse() =~= spec_le(n as u64, 4));
}

/// The framed length header: at most the 31-bit maximum, and the top
/// bit of the first header byte says, exactly, that the payload was
/// compressed.
pub proof fn lemma_frame_header_bit(payload: Seq<u8>)
    requires
        frame_ok(payload),
    ensures
        spec_frame(payload).len() >= 4,
        spec_frame(payload)[0] >= 128 <==> payload.len() > COMPRESSION_LIMIT,
{
    reveal_with_fuel(spec_le, 5);
    if payload.len() > COMPRESSION_LIMIT {
        let n: u32 = (gzip_of(payload).len() + 0x8000_0000) as u32;
        lemma_header_roundtrip(n);
        assert(spec_header(n)[0] == spec_le(n as u64, 4)[3]);
        assert(spec_le(n as u64, 4)[3] == ((n as u64) / 0x1000000 % 256) as u8) by {
            assert(spec_le(n as u64, 4)[3] == spec_le(n as u64 / 256, 3)[2]);
            assert(spec_le(n as u64 / 256, 3)[2] == spec_le(n as u64 / 256 / 256, 2)[1]);
            assert(spec_le(n as u64 / 256 / 256, 2)[1] == spec_le(
                n as u64 / 256 / 256 / 256,
                1,
            )[0]);
            assert(n as u64 / 256 / 256 / 256 == n as u64 / 0x1000000) by (nonlinear_arith) {}
            assert(spec_le(n as u64 / 0x1000000, 1)[0] == ((n as u64) / 0x1000000 % 256) as u8);
        }
        assert(n >= 0x8000_0000);
        assert((n as u64) / 0x1000000 >= 128) by (nonlinear_arith)
            requires
                n as u64 >= 0x8000_0000,
        {}
        assert((n as u64) / 0x1000000 % 256 >= 128) by (nonlinear_arith)
            requires
                n as u64 >= 0x8000_0000,
                (n as u64) < 0x1_0000_0000,
        {}
        assert(spec_frame(payload)[0] == spec_header(n)[0]);
    } else {
        let n: u32 = payload.len() as u32;
        lemma_header_roundtrip(n);
        assert(spec_header(n)[0] == spec_le(n as u64, 4)[3]);
        assert(spec_le(n as u64, 4)[3] == ((n as u64) / 0x1000000 % 256) as u8) by {
            assert(spec_le(n as u64, 4)[3] == spec_le(n as u64 / 256, 3)[2]);
            assert(spec_le(n as u64 / 256, 3)[2] == spec_le(n as u64 / 256 / 256, 2)[1]);
            assert(spec_le(n as u64 / 256 / 256, 2)[1] == spec_le(
                n as u64 / 256 / 256 / 256,
                1,
            )[0]);
            assert(n as u64 / 256 / 256 / 256 == n as u64 / 0x1000000) by (nonlinear_arith) {}
            assert(spec_le(n as u64 / 0x1000000, 1)[0] == ((n as u64) / 0x1000000 % 256) as u8);
        }
        assert(n < 0x8000_0000);
        assert((n as u64) / 0x1000000 % 256 < 128) by (nonlinear_arith)
            requires
                (n as u64) < 0x8000_0000,
        {}
        assert(spec_frame(payload)[0] == spec_header(n)[0]);
    }
}

/// The length boundary: a payload of the 31-bit maximum is still
/// framable (compressed, provided its compressed form fits too), one
/// byte more is not; nothing at or under the compression limit is ever
/// refused.
pub proof fn lemma_frame_length_boundary(payload: Seq<u8>)
    ensures
        payload.len() == 0x8000_0000 ==> !frame_ok(payload),
        payload.len() <= COMPRESSION_LIMIT ==> frame_ok(payload),
        payload.len() == 0x7fff_ffff && gzip_of(payload).len() <= 0x7fff_ffff ==> frame_ok(
            payload,
        ),
{
}

/// Appends the 4 header bytes of `n`.
fn header_enc(n: u32, out: &mut Vec<u8>)
    ensures
        final(out)@ == old(out)@ + spec_header(n),
{
    let mut tmp: Vec<u8> = Vec::new();
    crate::wire::le_enc(n as u64, 4, &mut tmp);
    proof {
        assert(tmp@ =~= spec_le(n as u64, 4));
        reveal_with_fuel(spec_le, 5);
    }
    out.push(tmp[3]);
    out.push(tmp[2]);
    out.push(tmp[1]);
    out.push(tmp[0]);
    proof {
        assert(out@ =~= old(out)@ + spec_le(n as u64, 4).reverse());
    }
}

/// Reads the word of the first 4 bytes.
fn header_dec(b: &Vec<u8>) -> (r: u32)
    requires
        b@.len() >= 4,
    ensures
        r == spec_le_val(b@.take(4).reverse()),
{
    let v: u64 = b[3] as u64 + 256 * (b[2] as u64 + 256 * (b[1] as u64 + 256 * (b[0] as u64)));
    proof {
        reveal_with_fuel(spec_le_val, 5);
        let s = b@.take(4).reverse();
        assert(s =~= seq![b@[3], b@[2], b@[1], b@[0]]);
        assert(s.drop_first() =~= seq![b@[2], b@[1], b@[0]]);
        assert(s.drop_first().drop_first() =~= seq![b@[1], b@[0]]);
        assert(s.drop_first().drop_first().drop_first() =~= seq![b@[0]]);
        assert(s.drop_first().drop_first().drop_first().drop_first() =~= Seq::<u8>::empty());
    }
    v as u32
}

/// Frames a message payload: writes the header and the payload, gzipped
/// when it runs past the compression limit. Fails, writing nothing,
/// exactly when the payload (or its compressed form) exceeds the 31-bit
/// length.
fn frame_encode(payload: Vec<u8>, buf: &mut Vec<u8>) -> (r: Result<(), KvError>)
    ensures
        r is Ok <==> frame_ok(payload@),
        r is Ok ==> final(buf)@ == old(buf)@ + spec_frame(payload@),
        r is Err ==> final(buf)@ == old(buf)@,
        r matches Err(e) ==> e@ == crate::error::KvErrorV::FrameError("length exceed"@),
{
    if payload.len() > MAX_FRAME {
        return Err(KvError::FrameError("length exceed".to_owned()));
    }
    if payload.len() > COMPRESSION_LIMIT {
        let mut gz = gzip_compress(payload.as_slice());
        if gz.len() > MAX_FRAME {
            return Err(KvError::FrameError("length exceed".to_owned()));
        }
        let header: u32 = (gz.len() as u32) + 0x8000_0000;
        header_enc(header, buf);
        buf.append(&mut gz);
        proof {
            assert(buf@ =~= old(buf)@ + spec_frame(payload@));
        }
        Ok(())
    } else {
        let header: u32 = payload.len() as u32;
        header_enc(header, buf);
        let mut p = payload;
        buf.append(&mut p);
        proof {
            assert(buf@ =~= old(buf)@ + spec_frame(payload@));
        }
        Ok(())
    }
}

/// What one decode attempt consumed and found, before the message is
/// parsed: the message bytes and how much of the buffer the frame took.
enum FrameBytes {
    /// Less than one whole frame is in the buffer.
    Incomplete,
    /// A frame was read: its message bytes and its total length.
    Got(Vec<u8>, usize),
    /// The compressed payload could not be read back.
    Bad(KvError),
}

/// Reads one frame's message bytes from the front of the buffer,
/// without consuming anything.
#[verifier::rlimit(60)]
fn frame_read(buf: &Vec<u8>) -> (r: FrameBytes)
    ensures
        buf@.len() < 4 ==> r is Incomplete,
        buf@.len() >= 4 && buf@.len() - 4 < spec_le_val(buf@.take(4).reverse()) % 0x8000_0000
            ==> r is Incomplete,
        r matches FrameBytes::Got(msg, used) ==> 4 <= used <= buf@.len(),
        forall|payload: Seq<u8>, rest: Seq<u8>|
            (buf@ == #[trigger] (spec_frame(payload) + rest) && frame_ok(payload)) ==> (r matches
            FrameBytes::Got(msg, used) && msg@ == payload && used == spec_frame(payload).len()),
{
    if buf.len() < 4 {
        proof {
            assert forall|payload: Seq<u8>, rest: Seq<u8>|
                !(buf@ == #[trigger] (spec_frame(payload) + rest) && frame_ok(payload)) by {
                if buf@ == spec_frame(payload) + rest && frame_ok(payload) {
                    lemma_frame_structure(buf@, payload, rest);
                }
            }
        }
        return FrameBytes::Incomplete;
    }
    let header = header_dec(buf);
    let compressed = header >= 0x8000_0000;
    let len = (header % 0x8000_0000) as usize;
    if buf.len() - 4 < len {
        proof {
            assert forall|payload: Seq<u8>, rest: Seq<u8>|
                !(buf@ == #[trigger] (spec_frame(payload) + rest) && frame_ok(payload)) by {
                if buf@ == spec_frame(payload) + rest && frame_ok(payload) {
                    lemma_frame_structure(buf@, payload, rest);
                }
            }
        }
        return FrameBytes::Incomplete;
    }
    let raw = vstd::slice::slice_to_vec(
        vstd::slice::slice_subrange(buf.as_slice(), 4, 4 + len),
    );
    if compressed {
        match gzip_decompress(raw.as_slice()) {
            Ok(out) => {
                proof {
                    assert forall|payload: Seq<u8>, rest: Seq<u8>|
                        (buf@ == #[trigger] (spec_frame(payload) + rest) && frame_ok(payload))
                            implies out@ == payload && 4 + len == spec_frame(payload).len() by {
                        lemma_frame_structure(buf@, payload, rest);
                    }
                }
                FrameBytes::Got(out, 4 + len)
            },
            Err(e) => {
                proof {
                    assert forall|payload: Seq<u8>, rest: Seq<u8>|
                        !(buf@ == #[trigger] (spec_frame(payload) + rest) && frame_ok(payload)) by {
                        if buf@ == spec_frame(payload) + rest && frame_ok(payload) {
                            lemma_frame_structure(buf@, payload, rest);
                        }
                    }
                }
                FrameBytes::Bad(e)
            },
        }
    } else {
        proof {
            assert forall|payload: Seq<u8>, rest: Seq<u8>|
                (buf@ == #[trigger] (spec_frame(payload) + rest) && frame_ok(payload))
                    implies raw@ == payload && 4 + len == spec_frame(payload).len() by {
                lemma_frame_structure(buf@, payload, rest);
            }
        }
        FrameBytes::Got(raw, 4 + len)
    }
}

/// What the bytes of a well-formed frame look like from the front: the
/// header word, its top bit, the length field, and the payload region.
proof fn lemma_frame_structure(b: Seq<u8>, payload: Seq<u8>, rest: Seq<u8>)
    requires
        b == spec_frame(payload) + rest,
        frame_ok(payload),
    ensures
        b.len() >= 4,
        ({
            let body: Seq<u8> = if payload.len() > COMPRESSION_LIMIT {
                gzip_of(payload)
            } else {
                payload
            };
            let h = spec_le_val(b.take(4).reverse());
            &&& (h >= 0x8000_0000 <==> payload.len() > COMPRESSION_LIMIT)
            &&& h % 0x8000_0000 == body.len()
            &&& b.len() - 4 >= body.len()
            &&& b.subrange(4, 4 + body.len() as int) == body
            &&& spec_frame(payload).len() == 4 + body.len()
        }),
{
    let body: Seq<u8> = if payload.len() > COMPRESSION_LIMIT {
        gzip_of(payload)
    } else {
        payload
    };
    let n: u32 = if payload.len() > COMPRESSION_LIMIT {
        (gzip_of(payload).len() + 0x8000_0000) as u32
    } else {
        payload.len() as u32
    };
    lemma_header_roundtrip(n);
    assert(b.take(4) =~= spec_header(n));
    assert(b.subrange(4, 4 + body.len() as int) =~= body);
}

/// Unframes one request from the front of the buffer. With less than a
/// whole frame in the buffer it answers nothing and leaves the buffer
/// alone; a whole frame is consumed exactly. Decoding the frame of any
/// encodable request gives that request back.
#[verifier::rlimit(60)]
pub fn try_decode_request(buf: &mut Vec<u8>) -> (r: Result<Option<CommandRequest>, KvError>)
    ensures
        old(buf)@.len() < 4 ==> (r matches Ok(m) && m is None && final(buf)@ == old(buf)@),
        old(buf)@.len() >= 4 && old(buf)@.len() - 4 < spec_le_val(
            old(buf)@.take(4).reverse(),
        ) % 0x8000_0000 ==> (r matches Ok(m) && m is None && final(buf)@ == old(buf)@),
        forall|req: Option<RequestDataV>, rest: Seq<u8>|
            (old(buf)@ == #[trigger] (spec_frame(spec_enc_request(req)) + rest) && request_fits(req)
                && frame_ok(spec_enc_request(req))) ==> (r matches Ok(m) && m matches Some(got)
                && got@ == req && final(buf)@ == rest),
{
    let ghost b0 = buf@;
    match frame_read(buf) {
        FrameBytes::Incomplete => Ok(None),
        FrameBytes::Bad(e) => {
            proof {
                lemma_no_good_frame(b0);
            }
            Err(e)
        },
        FrameBytes::Got(msg, used) => {
            match dec_request(msg.as_slice()) {
                Some(got) => {
                    let tail = vstd::slice::slice_to_vec(
                        vstd::slice::slice_subrange(buf.as_slice(), used, buf.len()),
                    );
                    *buf = tail;
                    proof {
                        assert forall|req: Option<RequestDataV>, rest: Seq<u8>|
                            (b0 == #[trigger] (spec_frame(spec_enc_request(req)) + rest)
                                && request_fits(req) && frame_ok(spec_enc_request(req)))
                                implies got@ == req && buf@ == rest by {
                            crate::wire_req::lemma_request_roundtrip(req);
                            assert(b0.subrange(
                                spec_frame(spec_enc_request(req)).len() as int,
                                b0.len() as int,
                            ) =~= rest);
                        }
                    }
                    Ok(Some(got))
                },
                None => {
                    proof {
                        lemma_no_good_frame(b0);
                    }
                    Err(KvError::DecodeError("request".to_owned()))
                },
            }
        },
    }
}

/// Unframes one response from the front of the buffer, exactly as
/// requests are unframed.
#[verifier::rlimit(60)]
pub fn try_decode_response(buf: &mut Vec<u8>) -> (r: Result<Option<CommandResponse>, KvError>)
    ensures
        old(buf)@.len() < 4 ==> (r matches Ok(m) && m is None && final(buf)@ == old(buf)@),
        old(buf)@.len() >= 4 && old(buf)@.len() - 4 < spec_le_val(
            old(buf)@.take(4).reverse(),
        ) % 0x8000_0000 ==> (r matches Ok(m) && m is None && final(buf)@ == old(buf)@),
        forall|resp: crate::pb::CommandResponseV, rest: Seq<u8>|
            (old(buf)@ == #[trigger] (spec_frame(spec_enc_resp(resp)) + rest) && resp_fits(resp)
                && frame_ok(spec_enc_resp(resp))) ==> (r matches Ok(m) && m matches Some(got)
                && got@ == resp && final(buf)@ == rest),
{
    let ghost b0 = buf@;
    match frame_read(buf) {
        FrameBytes::Incomplete => Ok(None),
        FrameBytes::Bad(e) => {
            proof {
                lemma_no_good_resp_frame(b0);
            }
            Err(e)
        },
        FrameBytes::Got(msg, used) => {
            match dec_resp(msg.as_slice()) {
                Some(got) => {
                    let tail = vstd::slice::slice_to_vec(
                        vstd::slice::slice_subrange(buf.as_slice(), used, buf.len()),
                    );
                    *buf = tail;
                    proof {
                        assert forall|resp: crate::pb::CommandResponseV, rest: Seq<u8>|
                            (b0 == #[trigger] (spec_frame(spec_enc_resp(resp)) + rest) && resp_fits(
                                resp,
                            ) && frame_ok(spec_enc_resp(resp))) implies got@ == resp && buf@
                            == rest by {
                            crate::wire_resp::lemma_resp_roundtrip(resp);
                            assert(b0.subrange(
                                spec_frame(spec_enc_resp(resp)).len() as int,
                                b0.len() as int,
                            ) =~= rest);
                        }
                    }
                    Ok(Some(got))
                },
                None => {
                    proof {
                        lemma_no_good_resp_frame(b0);
                    }
                    Err(KvError::DecodeError("response".to_owned()))
                },
            }
        },
    }
}

/// When decoding has failed, no encodable request's frame sat at the
/// front of the buffer (its frame would have decoded).
proof fn lemma_no_good_frame(b: Seq<u8>)
    ensures
        forall|req: Option<RequestDataV>, rest: Seq<u8>|
            (b == #[trigger] (spec_frame(spec_enc_request(req)) + rest) && request_fits(req)
                && frame_ok(spec_enc_request(req))) ==> spec_dec_request(spec_enc_request(req))
                == Some(req),
{
    assert forall|req: Option<RequestDataV>, rest: Seq<u8>|
        (b == #[trigger] (spec_frame(spec_enc_request(req)) + rest) && request_fits(req)
            && frame_ok(spec_enc_request(req))) implies spec_dec_request(spec_enc_request(req))
        == Some(req) by {
        crate::wire_req::lemma_request_roundtrip(req);
    }
}

/// When decoding has failed, no encodable response's frame sat at the
/// front of the buffer.
proof fn lemma_no_good_resp_frame(b: Seq<u8>)
    ensures
        forall|resp: crate::pb::CommandResponseV, rest: Seq<u8>|
            (b == #[trigger] (spec_frame(spec_enc_resp(resp)) + rest) && resp_fits(resp)
                && frame_ok(spec_enc_resp(resp))) ==> spec_dec_resp(spec_enc_resp(resp)) == Some(
                resp,
            ),
{
    assert forall|resp: crate::pb::CommandResponseV, rest: Seq<u8>|
        (b == #[trigger] (spec_frame(spec_enc_resp(resp)) + rest) && resp_fits(resp) && frame_ok(
            spec_enc_resp(resp),
        )) implies spec_dec_resp(spec_enc_resp(resp)) == Some(resp) by {
        crate::wire_resp::lemma_resp_roundtrip(resp);
    }
}

impl CommandRequest {
    /// Frames this request onto the buffer: its message bytes behind a
    /// header, gzipped past the compression limit. Fails, writing
    /// nothing, exactly when the bytes outgrow the 31-bit length field.
    pub fn encode_frame(&self, buf: &mut Vec<u8>) -> (r: Result<(), KvError>)
        ensures
            r is Ok <==> frame_ok(spec_enc_request(self@)),
            r is Ok ==> final(buf)@ == old(buf)@ + spec_frame(spec_enc_request(self@)),
            r is Err ==> final(buf)@ == old(buf)@,
            r matches Err(e) ==> e@ == crate::error::KvErrorV::FrameError("length exceed"@),
    {
        let mut payload: Vec<u8> = Vec::new();
        enc_request(self, &mut payload);
        proof {
            assert(payload@ =~= spec_enc_request(self@));
        }
        frame_encode(payload, buf)
    }

    /// Unframes one request from the front of the buffer, consuming
    /// exactly its frame. A buffer holding less than a whole frame is an
    /// error here; the streaming reader uses [`try_decode_request`].
    pub fn decode_frame(buf: &mut Vec<u8>) -> (r: Result<CommandRequest, KvError>)
        ensures
            forall|req: Option<RequestDataV>, rest: Seq<u8>|
                (old(buf)@ == #[trigger] (spec_frame(spec_enc_request(req)) + rest)
                    && request_fits(req) && frame_ok(spec_enc_request(req))) ==> (r matches Ok(
                    got,
                ) && got@ == req && final(buf)@ == rest),
    {
        match try_decode_request(buf) {
            Ok(Some(m)) => Ok(m),
            Ok(None) => Err(KvError::FrameError("frame incomplete".to_owned())),
            Err(e) => Err(e),
        }
    }
}

impl CommandResponse {
    /// Frames this response onto the buffer, exactly as requests are
    /// framed.
    pub fn encode_frame(&self, buf: &mut Vec<u8>) -> (r: Result<(), KvError>)
        ensures
            r is Ok <==> frame_ok(spec_enc_resp(self@)),
            r is Ok ==> final(buf)@ == old(buf)@ + spec_frame(spec_enc_resp(self@)),
            r is Err ==> final(buf)@ == old(buf)@,
            r matches Err(e) ==> e@ == crate::error::KvErrorV::FrameError("length exceed"@),
    {
        let mut payload: Vec<u8> = Vec::new();
        enc_resp(self, &mut payload);
        proof {
            assert(payload@ =~= spec_enc_resp(self@));
        }
        frame_encode(payload, buf)
    }

    /// Unframes one response from the front of the buffer, consuming
    /// exactly its frame.
    pub fn decode_frame(buf: &mut Vec<u8>) -> (r: Result<CommandResponse, KvError>)
        ensures
            forall|resp: crate::pb::CommandResponseV, rest: Seq<u8>|
                (old(buf)@ == #[trigger] (spec_frame(spec_enc_resp(resp)) + rest) && resp_fits(resp)
                    && frame_ok(spec_enc_resp(resp))) ==> (r matches Ok(got) && got@ == resp
                    && final(buf)@ == rest),
    {
        match try_decode_response(buf) {
            Ok(Some(m)) => Ok(m),
            Ok(None) => Err(KvError::FrameError("frame incomplete".to_owned())),
            Err(e) => Err(e),
        }
    }
}

/// A byte channel paired with the message types it carries: reads frames
/// of `F`, writes frames of `T`. The channel itself is driven by the
/// caller; this only fixes the pairing.
pub struct FrameIO<S, F, T> {
    pub inner: S,
    pub _f: core::marker::PhantomData<F>,
    pub _t: core::marker::PhantomData<T>,
}

impl<S, F, T> FrameIO<S, F, T> {
    pub fn new(s: S) -> (r: FrameIO<S, F, T>)
        ensures
            r.inner == s,
    {
        FrameIO { inner: s, _f: core::marker::PhantomData, _t: core::marker::PhantomData }
    }
}

} // verus!
