//! A verified core for a networked, multiplexed key-value and pub/sub
//! service: the message schema, the wire framing codec, the command
//! dispatcher, the in-memory storage and the broadcast registry.

pub mod command_service;
pub mod error;
pub mod frame;
pub mod memory;
pub mod noise;
pub mod pb;
pub mod request;
pub mod service;
pub mod storage;
pub mod stream_result;
pub mod text;
pub mod topic;
pub mod topic_service;
pub mod varint;
pub mod wire;
pub mod wire_req;
pub mod wire_resp;

pub use command_service::CommandService;
pub use error::KvError;
pub use frame::FrameIO;
pub use memory::MemTable;
pub use noise::{NoiseClient, NoiseServer};
pub use pb::{CommandResponse, Kvpair, Value};
pub use request::{CommandRequest, RequestData};
pub use service::{
    assert_res_error, assert_res_ok, assert_res_ref_error, assert_res_ref_ok, Hook, HookMut,
    Service, ServiceInner,
};
pub use storage::Storage;
pub use stream_result::{stream_result_id, stream_result_step};
pub use topic::{PubSub, RecvOutcome, MAILBOX_CAPACITY};
pub use topic_service::{StreamingResponse, TopicService};

use vstd::prelude::*;

verus! {

/// Maximum payload length a frame header can carry: the header keeps the
/// length in 31 bits, the top bit being the compression flag.
pub const MAX_FRAME: usize = 0x7fff_ffff;

/// Payloads longer than this are gzip-compressed before framing
/// (1500 MTU - 20 IP - 20 TCP - 20 slack - 4 header).
pub const COMPRESSION_LIMIT: usize = 1436;

} // verus!
