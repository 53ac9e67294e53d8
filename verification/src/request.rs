//! Command requests: the twelve variants, their views, and the
//! constructors clients use to build them.

use vstd::prelude::*;

use crate::pb::{Kvpair, KvpairV, Value, ValueV, keys_view, pairs_view, values_view};

verus! {

/// Fetch one value (one-shot).
#[derive(Debug, Clone, PartialEq)]
pub struct Hget {
    pub table: String,
    pub key: String,
}

#[verifier::ext_equal]
pub struct HgetV {
    pub table: Seq<char>,
    pub key: Seq<char>,
}

impl View for Hget {
    type V = HgetV;

    open spec fn view(&self) -> HgetV {
        HgetV { table: self.table@, key: self.key@ }
    }
}

/// Fetch every pair of a table (one-shot).
#[derive(Debug, Clone, PartialEq)]
pub struct Hgetall {
    pub table: String,
}

#[verifier::ext_equal]
pub struct HgetallV {
    pub table: Seq<char>,
}

impl View for Hgetall {
    type V = HgetallV;

    open spec fn view(&self) -> HgetallV {
        HgetallV { table: self.table@ }
    }
}

/// Fetch several values at once (one-shot).
#[derive(Debug, Clone, PartialEq)]
pub struct Hmget {
    pub table: String,
    pub keys: Vec<String>,
}

#[verifier::ext_equal]
pub struct HmgetV {
    pub table: Seq<char>,
    pub keys: Seq<Seq<char>>,
}

impl View for Hmget {
    type V = HmgetV;

    open spec fn view(&self) -> HmgetV {
        HmgetV { table: self.table@, keys: keys_view(self.keys@) }
    }
}

/// Store one pair (one-shot).
#[derive(Debug, Clone, PartialEq)]
pub struct Hset {
    pub table: String,
    pub pair: Option<Kvpair>,
}

#[verifier::ext_equal]
pub struct HsetV {
    pub table: Seq<char>,
    pub pair: Option<KvpairV>,
}

impl View for Hset {
    type V = HsetV;

    open spec fn view(&self) -> HsetV {
        HsetV {
            table: self.table@,
            pair: match &self.pair {
                Some(p) => Some(p@),
                None => None,
            },
        }
    }
}

/// Store several pairs (one-shot).
#[derive(Debug, Clone, PartialEq)]
pub struct Hmset {
    pub table: String,
    pub pairs: Vec<Kvpair>,
}

#[verifier::ext_equal]
pub struct HmsetV {
    pub table: Seq<char>,
    pub pairs: Seq<KvpairV>,
}

impl View for Hmset {
    type V = HmsetV;

    open spec fn view(&self) -> HmsetV {
        HmsetV { table: self.table@, pairs: pairs_view(self.pairs@) }
    }
}

/// Delete one key (one-shot).
#[derive(Debug, Clone, PartialEq)]
pub struct Hdel {
    pub table: String,
    pub key: String,
}

#[verifier::ext_equal]
pub struct HdelV {
    pub table: Seq<char>,
    pub key: Seq<char>,
}

impl View for Hdel {
    type V = HdelV;

    open spec fn view(&self) -> HdelV {
        HdelV { table: self.table@, key: self.key@ }
    }
}

/// Delete several keys (one-shot).
#[derive(Debug, Clone, PartialEq)]
pub struct Hmdel {
    pub table: String,
    pub keys: Vec<String>,
}

#[verifier::ext_equal]
pub struct HmdelV {
    pub table: Seq<char>,
    pub keys: Seq<Seq<char>>,
}

impl View for Hmdel {
    type V = HmdelV;

    open spec fn view(&self) -> HmdelV {
        HmdelV { table: self.table@, keys: keys_view(self.keys@) }
    }
}

/// Ask whether one key exists (one-shot).
#[derive(Debug, Clone, PartialEq)]
pub struct Hexist {
    pub table: String,
    pub key: String,
}

#[verifier::ext_equal]
pub struct HexistV {
    pub table: Seq<char>,
    pub key: Seq<char>,
}

impl View for Hexist {
    type V = HexistV;

    open spec fn view(&self) -> HexistV {
        HexistV { table: self.table@, key: self.key@ }
    }
}

/// Ask whether several keys exist (one-shot).
#[derive(Debug, Clone, PartialEq)]
pub struct Hmexist {
    pub table: String,
    pub keys: Vec<String>,
}

#[verifier::ext_equal]
pub struct HmexistV {
    pub table: Seq<char>,
    pub keys: Seq<Seq<char>>,
}

impl View for Hmexist {
    type V = HmexistV;

    open spec fn view(&self) -> HmexistV {
        HmexistV { table: self.table@, keys: keys_view(self.keys@) }
    }
}

/// Open a subscription stream on a topic (streaming).
#[derive(Debug, Clone, PartialEq)]
pub struct Subscribe {
    pub topic: String,
}

#[verifier::ext_equal]
pub struct SubscribeV {
    pub topic: Seq<char>,
}

impl View for Subscribe {
    type V = SubscribeV;

    open spec fn view(&self) -> SubscribeV {
        SubscribeV { topic: self.topic@ }
    }
}

/// Close a subscription by id (streaming).
#[derive(Debug, Clone, PartialEq)]
pub struct Unsubscribe {
    pub topic: String,
    pub id: u32,
}

#[verifier::ext_equal]
pub struct UnsubscribeV {
    pub topic: Seq<char>,
    pub id: u32,
}

impl View for Unsubscribe {
    type V = UnsubscribeV;

    open spec fn view(&self) -> UnsubscribeV {
        UnsubscribeV { topic: self.topic@, id: self.id }
    }
}

/// Fan values out to every subscriber of a topic (streaming).
#[derive(Debug, Clone, PartialEq)]
pub struct Publish {
    pub topic: String,
    pub data: Vec<Value>,
}

#[verifier::ext_equal]
pub struct PublishV {
    pub topic: Seq<char>,
    pub data: Seq<ValueV>,
}

impl View for Publish {
    type V = PublishV;

    open spec fn view(&self) -> PublishV {
        PublishV { topic: self.topic@, data: values_view(self.data@) }
    }
}

/// The tagged union over all request variants.
#[derive(Debug, Clone, PartialEq)]
pub enum RequestData {
    Hget(Hget),
    Hgetall(Hgetall),
    Hmget(Hmget),
    Hset(Hset),
    Hmset(Hmset),
    Hdel(Hdel),
    Hmdel(Hmdel),
    Hexist(Hexist),
    Hmexist(Hmexist),
    Subscribe(Subscribe),
    Unsubscribe(Unsubscribe),
    Publish(Publish),
}

/// Mathematical view of [`RequestData`].
#[verifier::ext_equal]
pub enum RequestDataV {
    Hget(HgetV),
    Hgetall(HgetallV),
    Hmget(HmgetV),
    Hset(HsetV),
    Hmset(HmsetV),
    Hdel(HdelV),
    Hmdel(HmdelV),
    Hexist(HexistV),
    Hmexist(HmexistV),
    Subscribe(SubscribeV),
    Unsubscribe(UnsubscribeV),
    Publish(PublishV),
}

impl View for RequestData {
    type V = RequestDataV;

    open spec fn view(&self) -> RequestDataV {
        match self {
            RequestData::Hget(p) => RequestDataV::Hget(p@),
            RequestData::Hgetall(p) => RequestDataV::Hgetall(p@),
            RequestData::Hmget(p) => RequestDataV::Hmget(p@),
            RequestData::Hset(p) => RequestDataV::Hset(p@),
            RequestData::Hmset(p) => RequestDataV::Hmset(p@),
            RequestData::Hdel(p) => RequestDataV::Hdel(p@),
            RequestData::Hmdel(p) => RequestDataV::Hmdel(p@),
            RequestData::Hexist(p) => RequestDataV::Hexist(p@),
            RequestData::Hmexist(p) => RequestDataV::Hmexist(p@),
            RequestData::Subscribe(p) => RequestDataV::Subscribe(p@),
            RequestData::Unsubscribe(p) => RequestDataV::Unsubscribe(p@),
            RequestData::Publish(p) => RequestDataV::Publish(p@),
        }
    }
}

impl RequestDataV {
    /// Partitions the variants: Subscribe, Unsubscribe and Publish open or
    /// act on response streams; the rest answer with a single response.
    pub open spec fn is_streaming(self) -> bool {
        match self {
            RequestDataV::Subscribe(_) => true,
            RequestDataV::Unsubscribe(_) => true,
            RequestDataV::Publish(_) => true,
            _ => false,
        }
    }
}

impl RequestData {
    /// Whether this variant opens or acts on a response stream.
    pub fn is_streaming(&self) -> (r: bool)
        ensures
            r == self@.is_streaming(),
    {
        match self {
            RequestData::Subscribe(_) => true,
            RequestData::Unsubscribe(_) => true,
            RequestData::Publish(_) => true,
            _ => false,
        }
    }
}

/// One decoded command: either one of the twelve variants, or nothing (a
/// request that carried no data and is answered with a 400 response).
#[derive(Debug, Clone, PartialEq)]
pub struct CommandRequest {
    pub request_data: Option<RequestData>,
}

impl View for CommandRequest {
    type V = Option<RequestDataV>;

    open spec fn view(&self) -> Option<RequestDataV> {
        match &self.request_data {
            Some(rd) => Some(rd@),
            None => None,
        }
    }
}

impl CommandRequest {
    pub fn new_hget(table: &str, key: &str) -> (r: Self)
        ensures
            r@ == Some(RequestDataV::Hget(HgetV { table: table@, key: key@ })),
    {
        CommandRequest {
            request_data: Some(
                RequestData::Hget(Hget { table: table.to_owned(), key: key.to_owned() }),
            ),
        }
    }

    pub fn new_hset(table: &str, key: &str, value: Value) -> (r: Self)
        ensures
            r@ == Some(
                RequestDataV::Hset(
                    HsetV { table: table@, pair: Some(KvpairV { key: key@, value: value@ }) },
                ),
            ),
    {
        CommandRequest {
            request_data: Some(
                RequestData::Hset(
                    Hset { table: table.to_owned(), pair: Some(Kvpair::new(key, value)) },
                ),
            ),
        }
    }

    pub fn new_hdel(table: &str, key: &str) -> (r: Self)
        ensures
            r@ == Some(RequestDataV::Hdel(HdelV { table: table@, key: key@ })),
    {
        CommandRequest {
            request_data: Some(
                RequestData::Hdel(Hdel { table: table.to_owned(), key: key.to_owned() }),
            ),
        }
    }

    pub fn new_hexist(table: &str, key: &str) -> (r: Self)
        ensures
            r@ == Some(RequestDataV::Hexist(HexistV { table: table@, key: key@ })),
    {
        CommandRequest {
            request_data: Some(
                RequestData::Hexist(Hexist { table: table.to_owned(), key: key.to_owned() }),
            ),
        }
    }

    pub fn new_hmget(table: &str, keys: Vec<String>) -> (r: Self)
        ensures
            r@ == Some(RequestDataV::Hmget(HmgetV { table: table@, keys: keys_view(keys@) })),
    {
        CommandRequest {
            request_data: Some(RequestData::Hmget(Hmget { table: table.to_owned(), keys })),
        }
    }

    pub fn new_hgetall(table: &str) -> (r: Self)
        ensures
            r@ == Some(RequestDataV::Hgetall(HgetallV { table: table@ })),
    {
        CommandRequest {
            request_data: Some(RequestData::Hgetall(Hgetall { table: table.to_owned() })),
        }
    }

    pub fn new_hmset(table: &str, pairs: Vec<Kvpair>) -> (r: Self)
        ensures
            r@ == Some(RequestDataV::Hmset(HmsetV { table: table@, pairs: pairs_view(pairs@) })),
    {
        CommandRequest {
            request_data: Some(RequestData::Hmset(Hmset { table: table.to_owned(), pairs })),
        }
    }

    pub fn new_hmdel(table: &str, keys: Vec<String>) -> (r: Self)
        ensures
            r@ == Some(RequestDataV::Hmdel(HmdelV { table: table@, keys: keys_view(keys@) })),
    {
        CommandRequest {
            request_data: Some(RequestData::Hmdel(Hmdel { table: table.to_owned(), keys })),
        }
    }

    pub fn new_hmexist(table: &str, keys: Vec<String>) -> (r: Self)
        ensures
            r@ == Some(RequestDataV::Hmexist(HmexistV { table: table@, keys: keys_view(keys@) })),
    {
        CommandRequest {
            request_data: Some(RequestData::Hmexist(Hmexist { table: table.to_owned(), keys })),
        }
    }

    pub fn new_subscribe(topic: &str) -> (r: Self)
        ensures
            r@ == Some(RequestDataV::Subscribe(SubscribeV { topic: topic@ })),
    {
        CommandRequest {
            request_data: Some(RequestData::Subscribe(Subscribe { topic: topic.to_owned() })),
        }
    }

    pub fn new_publish(topic: &str, data: Vec<Value>) -> (r: Self)
        ensures
            r@ == Some(
                RequestDataV::Publish(PublishV { topic: topic@, data: values_view(data@) }),
            ),
    {
        CommandRequest {
            request_data: Some(RequestData::Publish(Publish { topic: topic.to_owned(), data })),
        }
    }

    pub fn new_unsubscribe(topic: &str, id: u32) -> (r: Self)
        ensures
            r@ == Some(RequestDataV::Unsubscribe(UnsubscribeV { topic: topic@, id: id })),
    {
        CommandRequest {
            request_data: Some(
                RequestData::Unsubscribe(Unsubscribe { topic: topic.to_owned(), id }),
            ),
        }
    }
}

} // verus!
