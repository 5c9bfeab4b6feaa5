//! The identity of one store: which store, campaign and base it holds and
//! under which storage, codec and reducer epochs it was written.
use vstd::prelude::*;

use crate::ids::{BaseId, CampaignId, StoreId};

verus! {

/// The storage epochs a store can have been written under.
#[derive(Clone, Copy, Debug, PartialEq, Eq, Structural)]
pub enum StoreEpoch {
    Zap1,
    Zap2,
}

/// The epoch of the canonical codec a store's payloads are encoded under.
#[derive(Clone, Copy, Debug, PartialEq, Eq, Structural)]
pub struct CodecEpoch(pub u32);

/// The epoch of the reducers a store's events were decided under.
#[derive(Clone, Copy, Debug, PartialEq, Eq, Structural)]
pub struct ReducerEpoch(pub u32);

/// The exact identity a service, a permit and every replayed event are bound to.
#[derive(Clone, Copy, Debug, PartialEq, Eq, Structural)]
pub struct StoreIdentity {
    pub store_id: StoreId,
    pub campaign_id: CampaignId,
    pub base_id: BaseId,
    pub store_epoch: StoreEpoch,
    pub codec_epoch: CodecEpoch,
    pub reducer_epoch: ReducerEpoch,
}

impl StoreIdentity {
    /// Whether two identities name the same store, campaign, base and epochs.
    pub fn same(&self, other: &StoreIdentity) -> (r: bool)
        ensures
            r == (*self == *other),
    {
        self.store_id.0 == other.store_id.0 && self.campaign_id.0 == other.campaign_id.0
            && self.base_id.0 == other.base_id.0 && self.codec_epoch.0 == other.codec_epoch.0
            && self.reducer_epoch.0 == other.reducer_epoch.0 && match (self.store_epoch, other.store_epoch) {
            (StoreEpoch::Zap1, StoreEpoch::Zap1) => true,
            (StoreEpoch::Zap2, StoreEpoch::Zap2) => true,
            _ => false,
        }
    }
}

} // verus!
