//! How a client reads a subscription stream: the first message carries
//! the subscription id; a status-0 message ends the stream.

use vstd::prelude::*;

use crate::error::{KvError, KvErrorV};
use crate::pb::{CommandResponse, CommandResponseV, ValueV, STATUS_OK, STATUS_SENTINEL};

verus! {

/// Whether a first stream message is a valid id-discovery packet: status
/// 200 and a first value carrying an integer.
pub open spec fn valid_stream_head(first: Option<CommandResponseV>) -> bool {
    match first {
        Some(r) => r.status == STATUS_OK && r.values.len() > 0 && r.values[0] is Int,
        None => false,
    }
}

/// The subscription id a valid head carries: its first value, truncated
/// to an id.
pub open spec fn stream_head_id(first: Option<CommandResponseV>) -> u32
    recommends
        valid_stream_head(first),
{
    match first {
        Some(r) => match r.values[0] {
            ValueV::Int(i) => i as u32,
            _ => 0,
        },
        None => 0,
    }
}

/// Reads the subscription id out of the first message of a response
/// stream. Anything but a status-200 message whose first value is an
/// integer is an invalid stream.
pub fn stream_result_id(first: &Option<CommandResponse>) -> (r: Result<u32, KvError>)
    ensures
        ({
            let fv = match first {
                Some(m) => Some(m@),
                None => None::<CommandResponseV>,
            };
            match r {
                Ok(id) => valid_stream_head(fv) && id == stream_head_id(fv),
                Err(e) => !valid_stream_head(fv) && e@ == KvErrorV::Internal("Invalid stream"@),
            }
        }),
{
    match first {
        Some(m) => {
            if m.status == STATUS_OK && m.values.len() > 0 {
                match &m.values[0] {
                    crate::pb::Value::Int(i) => Ok(#[verifier::truncate] (*i as u32)),
                    _ => Err(KvError::Internal("Invalid stream".to_owned())),
                }
            } else {
                Err(KvError::Internal("Invalid stream".to_owned()))
            }
        },
        None => Err(KvError::Internal("Invalid stream".to_owned())),
    }
}

/// Translates one later stream message: a status-0 message is the
/// end-of-stream sentinel and becomes `None`; every other message is
/// forwarded as it is.
pub fn stream_result_step(item: CommandResponse) -> (r: Option<CommandResponse>)
    ensures
        ({
            let iv = item@;
            match r {
                Some(m) => iv.status != STATUS_SENTINEL && m@ == iv,
                None => iv.status == STATUS_SENTINEL,
            }
        }),
{
    if item.status == STATUS_SENTINEL {
        None
    } else {
        Some(item)
    }
}

} // verus!
