use vstd::prelude::*;

use crate::identity::Identity;

verus! {

/// A badge as the model sees it.
pub struct BadgeView {
    pub id: u64,
    pub owner: Seq<u8>,
    pub metadata: Seq<char>,
    pub timestamp: u64,
}

/// The record issued once to an identity that claims the badge.
pub struct Badge {
    /// Sequential, starting at 1, in the order of claims.
    pub id: u64,
    pub owner: Identity,
    /// Opaque text supplied by the claimant.
    pub metadata: String,
    /// Host time at issuance.
    pub timestamp: u64,
}

impl View for Badge {
    type V = BadgeView;

    open spec fn view(&self) -> BadgeView {
        BadgeView {
            id: self.id,
            owner: self.owner@,
            metadata: self.metadata@,
            timestamp: self.timestamp,
        }
    }
}

impl Badge {
    pub fn new(id: u64, owner: Identity, metadata: String, timestamp: u64) -> (r: Badge)
        ensures
            r@ == (BadgeView { id, owner: owner@, metadata: metadata@, timestamp }),
    {
        Badge { id, owner, metadata, timestamp }
    }

    /// A copy with the same fields.
    pub fn duplicate(&self) -> (r: Badge)
        ensures
            r@ == self@,
    {
        Badge {
            id: self.id,
            owner: self.owner.duplicate(),
            metadata: self.metadata.clone(),
            timestamp: self.timestamp,
        }
    }
}

impl Clone for Badge {
    fn clone(&self) -> (r: Badge)
        ensures
            r@ == self@,
    {
        self.duplicate()
    }
}

/// The view of an optional badge.
pub open spec fn badge_opt_view(o: Option<Badge>) -> Option<BadgeView> {
    match o {
        Some(b) => Some(b@),
        None => None,
    }
}

} // verus!
