//! The per-exchange feed adapter: the decode-and-store step of one feed,
//! and the connect-time initialization contract.
//!
//! The live connection itself (sockets, reconnects) is a transport concern
//! outside this crate; the adapter here is what the transport calls back
//! into: `on_connect` once per (re)connect, `on_message` for every inbound
//! text payload.

use vstd::prelude::*;

use crate::decode::{decodes_to, is_wrapped, spec_decoded, spec_market_data, DecodeError};
use crate::store::Store;

verus! {

/// One exchange's feed adapter: the exchange's name, stamped on every level
/// it produces, and the subscribe message to send after connecting, if the
/// exchange needs one.
pub struct FeedAdapter {
    exchange: String,
    init_message: Option<String>,
}

impl FeedAdapter {
    /// The exchange this adapter feeds.
    pub closed spec fn name(&self) -> Seq<char> {
        self.exchange@
    }

    /// The configured initialization message, if any.
    pub closed spec fn init(&self) -> Option<Seq<char>> {
        match self.init_message {
            Some(m) => Some(m@),
            None => None,
        }
    }

    /// An adapter for `exchange`, configured to send `init_message` once
    /// upon every connect.
    pub fn new(exchange: String, init_message: Option<String>) -> (r: FeedAdapter)
        ensures
            r.name() == exchange@,
            match init_message {
                Some(m) => r.init() == Some(m@),
                None => r.init() is None,
            },
    {
        FeedAdapter { exchange, init_message }
    }

    /// The exchange's name, as the transport needs it.
    pub fn exchange(&self) -> (r: &String)
        ensures
            r@ == self.name(),
    {
        &self.exchange
    }

    /// Called once per connect event.  Yields the configured initialization
    /// message anew on every call, so a reconnected feed is re-subscribed:
    /// the transport sends what it gets here exactly once per (re)connect.
    pub fn on_connect(&self) -> (r: Option<String>)
        ensures
            match (r, self.init()) {
                (Some(m), Some(p)) => m@ == p,
                (None, None) => true,
                _ => false,
            },
    {
        match &self.init_message {
            Some(m) => Some(m.clone()),
            None => None,
        }
    }

    /// Handles one inbound payload: decodes it and stores this exchange's
    /// summary; on a decode error the message is dropped and the store kept
    /// as it was, so the adapter may be called again across reconnects
    /// without corrupting state.
    pub fn on_message(&self, store: &mut Store, payload: &[u8]) -> (r: Result<(), DecodeError>)
        requires
            old(store).wf(),
        ensures
            final(store).wf(),
            match r {
                Ok(()) => exists|s: crate::book::Summary|
                    #[trigger] decodes_to(payload@, self.name(), s) && final(store).as_map()
                        == old(store).as_map().insert(self.name(), s),
                Err(e) => *final(store) == *old(store) && match e {
                    DecodeError::Malformed => spec_market_data(payload@, is_wrapped(self.name()))
                        is None,
                    DecodeError::BadNumber => spec_market_data(payload@, is_wrapped(self.name()))
                        is Some && spec_decoded(payload@, self.name()) is None,
                },
            },
    {
        store.decode_and_store(self.exchange.as_str(), payload)
    }
}

} // verus!
