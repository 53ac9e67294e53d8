//! The streaming command executor: Subscribe, Unsubscribe and Publish
//! against the broadcaster.

use vstd::prelude::*;

use crate::error::{error_resp, KvError, KvErrorV};
use crate::pb::{CommandResponse, CommandResponseV, ValueV};
use crate::request::{
    CommandRequest, Publish, PublishV, RequestDataV, Subscribe, SubscribeV, Unsubscribe,
    UnsubscribeV,
};
use crate::text::spec_u64_dec;
use crate::topic::{spec_publish, spec_subscribe, spec_unsubscribe, PubSub, PubSubV};

verus! {

/// What a streaming command hands back: either a single response (an
/// acknowledgment or an error), or a newly opened subscription stream,
/// named by its id, to be drained from the broadcaster.
pub enum StreamingResponse {
    Single(CommandResponse),
    Subscribed(u32),
}

/// Mathematical view of a [`StreamingResponse`].
pub enum StreamingResponseV {
    Single(CommandResponseV),
    Subscribed(u32),
}

impl View for StreamingResponse {
    type V = StreamingResponseV;

    open spec fn view(&self) -> StreamingResponseV {
        match self {
            StreamingResponse::Single(r) => StreamingResponseV::Single(r@),
            StreamingResponse::Subscribed(id) => StreamingResponseV::Subscribed(*id),
        }
    }
}

/// What executing `Subscribe { topic }` does and answers.
pub open spec fn subscribe_rel(
    q: SubscribeV,
    m: PubSubV,
    r: StreamingResponseV,
    m2: PubSubV,
) -> bool {
    &&& r == StreamingResponseV::Subscribed(m.next_id)
    &&& m2 == spec_subscribe(m, q.topic)
}

/// What executing `Unsubscribe { topic, id }` does and answers: a bare
/// 200 when the subscription was live, a 404 naming the subscription
/// otherwise.
pub open spec fn unsubscribe_rel(
    q: UnsubscribeV,
    m: PubSubV,
    r: StreamingResponseV,
    m2: PubSubV,
) -> bool {
    &&& m2 == spec_unsubscribe(m, q.id).0
    &&& r == StreamingResponseV::Single(
        if spec_unsubscribe(m, q.id).1 {
            CommandResponseV::ok_values(Seq::<ValueV>::empty())
        } else {
            error_resp(
                KvErrorV::NotFound(q.topic, "subscription "@ + spec_u64_dec(q.id as nat)),
            )
        },
    )
}

/// What executing `Publish { topic, data }` does and answers: the fan-out
/// happens and the publisher gets a bare 200 acknowledgment, whether or
/// not anyone was subscribed.
pub open spec fn publish_rel(
    q: PublishV,
    m: PubSubV,
    r: StreamingResponseV,
    m2: PubSubV,
) -> bool {
    &&& m2 == spec_publish(m, q.topic, q.data)
    &&& r == StreamingResponseV::Single(CommandResponseV::ok_values(Seq::<ValueV>::empty()))
}

/// What a streaming-dispatched request does: a request without data, or
/// a one-shot request sent down this path, is refused with a 400
/// response and the broadcaster is left as it was.
pub open spec fn dispatch_streaming_rel(
    req: Option<RequestDataV>,
    m: PubSubV,
    r: StreamingResponseV,
    m2: PubSubV,
) -> bool {
    match req {
        Some(RequestDataV::Subscribe(q)) => subscribe_rel(q, m, r, m2),
        Some(RequestDataV::Unsubscribe(q)) => unsubscribe_rel(q, m, r, m2),
        Some(RequestDataV::Publish(q)) => publish_rel(q, m, r, m2),
        Some(_) => m2 == m && r == StreamingResponseV::Single(
            error_resp(KvErrorV::InvalidCommand("Not streaming command"@)),
        ),
        None => m2 == m && r == StreamingResponseV::Single(
            error_resp(KvErrorV::InvalidCommand("Request has no data"@)),
        ),
    }
}

/// A streaming command: executed against the broadcaster, it opens a
/// stream or answers once.
pub trait TopicService: Sized {
    /// The relation the execution satisfies.
    spec fn execute_rel(&self, m: PubSubV, r: StreamingResponseV, m2: PubSubV) -> bool;

    /// Executes the command against the broadcaster.
    fn execute(self, topic: &mut PubSub) -> (r: StreamingResponse)
        requires
            old(topic)@.wf(),
            old(topic)@.next_id < u32::MAX,
        ensures
            final(topic)@.wf(),
            self.execute_rel(old(topic)@, r@, final(topic)@),
    ;
}

impl TopicService for Subscribe {
    open spec fn execute_rel(&self, m: PubSubV, r: StreamingResponseV, m2: PubSubV) -> bool {
        subscribe_rel(self@, m, r, m2)
    }

    fn execute(self, topic: &mut PubSub) -> (r: StreamingResponse) {
        let id = topic.subscribe(self.topic);
        StreamingResponse::Subscribed(id)
    }
}

impl TopicService for Unsubscribe {
    open spec fn execute_rel(&self, m: PubSubV, r: StreamingResponseV, m2: PubSubV) -> bool {
        unsubscribe_rel(self@, m, r, m2)
    }

    fn execute(self, topic: &mut PubSub) -> (r: StreamingResponse) {
        match topic.unsubscribe(self.topic.as_str(), self.id) {
            Ok(_) => StreamingResponse::Single(CommandResponse::ok()),
            Err(e) => StreamingResponse::Single(CommandResponse::of_error(e)),
        }
    }
}

impl TopicService for Publish {
    open spec fn execute_rel(&self, m: PubSubV, r: StreamingResponseV, m2: PubSubV) -> bool {
        publish_rel(self@, m, r, m2)
    }

    fn execute(self, topic: &mut PubSub) -> (r: StreamingResponse) {
        let _delivered = topic.publish(self.topic.as_str(), self.data);
        StreamingResponse::Single(CommandResponse::ok())
    }
}

impl CommandRequest {
    /// Routes a streaming request to the broadcaster. A request without
    /// data, or a one-shot request sent down this path, is refused with a
    /// 400 response.
    pub fn dispatch_streaming(self, topic: &mut PubSub) -> (r: StreamingResponse)
        requires
            old(topic)@.wf(),
            old(topic)@.next_id < u32::MAX,
        ensures
            final(topic)@.wf(),
            dispatch_streaming_rel(self@, old(topic)@, r@, final(topic)@),
    {
        match self.request_data {
            Some(rd) => if rd.is_streaming() {
                match rd {
                    crate::request::RequestData::Subscribe(q) => q.execute(topic),
                    crate::request::RequestData::Unsubscribe(q) => q.execute(topic),
                    crate::request::RequestData::Publish(q) => q.execute(topic),
                    _ => StreamingResponse::Single(
                        CommandResponse::of_error(
                            KvError::InvalidCommand("Not streaming command".to_owned()),
                        ),
                    ),
                }
            } else {
                StreamingResponse::Single(
                    CommandResponse::of_error(
                        KvError::InvalidCommand("Not streaming command".to_owned()),
                    ),
                )
            },
            None => StreamingResponse::Single(
                CommandResponse::of_error(
                    KvError::InvalidCommand("Request has no data".to_owned()),
                ),
            ),
        }
    }
}

} // verus!
