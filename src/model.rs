use vstd::prelude::*;

use crate::badge::BadgeView;
use crate::identity::anonymous_bytes;

verus! {

/// Why a call was refused. The host turns each into a trap that discards the
/// call's state changes.
#[derive(PartialEq, Eq, Structural, Clone, Copy, Debug)]
pub enum Abort {
    /// The anonymous identity may not hold or query a badge.
    AnonymousCaller,
    /// The caller holds a badge already.
    AlreadyClaimed,
    /// Only the admin or the canister itself may name a new admin.
    NotAdminToSetAdmin,
    /// Only the admin may list every badge.
    NotAdminToViewAll,
}

impl Abort {
    pub fn message(&self) -> (r: String)
        ensures
            r@ == self.message_spec(),
    {
        match self {
            Abort::AnonymousCaller => "Anonymous principal not allowed".to_owned(),
            Abort::AlreadyClaimed => "Badge already claimed".to_owned(),
            Abort::NotAdminToSetAdmin => "Only the admin can set a new admin".to_owned(),
            Abort::NotAdminToViewAll => "Only admin can view all badges".to_owned(),
        }
    }

    pub open spec fn message_spec(&self) -> Seq<char> {
        match self {
            Abort::AnonymousCaller => "Anonymous principal not allowed"@,
            Abort::AlreadyClaimed => "Badge already claimed"@,
            Abort::NotAdminToSetAdmin => "Only the admin can set a new admin"@,
            Abort::NotAdminToViewAll => "Only admin can view all badges"@,
        }
    }
}

/// The error text of a second mint by the same identity.
pub open spec fn already_minted_message() -> Seq<char> {
    "You already have an Early Bird Badge NFT"@
}

/// The registry's state: badges in order of issuance, the admin, token
/// holdings in order of minting, and the next unissued token id.
pub struct RegistryModel {
    pub badges: Seq<(Seq<u8>, BadgeView)>,
    pub admin: Seq<u8>,
    pub nfts: Seq<(Seq<u8>, u64)>,
    pub next_nft_id: u64,
}

impl RegistryModel {
    /// A fresh registry made by `creator`: no badges, no tokens, counter at 1.
    pub open spec fn initial(creator: Seq<u8>) -> RegistryModel {
        RegistryModel { badges: Seq::empty(), admin: creator, nfts: Seq::empty(), next_nft_id: 1 }
    }

    pub open spec fn holds_badge(self, who: Seq<u8>) -> bool {
        exists|i: int| 0 <= i < self.badges.len() && #[trigger] self.badges[i].0 == who
    }

    pub open spec fn badge_of(self, who: Seq<u8>) -> Option<BadgeView> {
        if self.holds_badge(who) {
            let i = choose|i: int| 0 <= i < self.badges.len() && #[trigger] self.badges[i].0 == who;
            Some(self.badges[i].1)
        } else {
            None
        }
    }

    pub open spec fn badge_count(self) -> nat {
        self.badges.len()
    }

    /// The identities that hold a badge.
    pub open spec fn badge_holders(self) -> Set<Seq<u8>> {
        Set::new(|who: Seq<u8>| self.holds_badge(who))
    }

    pub open spec fn owns_nft(self, who: Seq<u8>) -> bool {
        exists|i: int| 0 <= i < self.nfts.len() && #[trigger] self.nfts[i].0 == who
    }

    pub open spec fn nft_of(self, who: Seq<u8>) -> Option<u64> {
        if self.owns_nft(who) {
            let i = choose|i: int| 0 <= i < self.nfts.len() && #[trigger] self.nfts[i].0 == who;
            Some(self.nfts[i].1)
        } else {
            None
        }
    }

    /// The identities that hold a token.
    pub open spec fn nft_holders(self) -> Set<Seq<u8>> {
        Set::new(|who: Seq<u8>| self.owns_nft(who))
    }

    pub open spec fn total_supply(self) -> u64 {
        if self.next_nft_id > 0 {
            (self.next_nft_id - 1) as u64
        } else {
            0
        }
    }

    /// One entry per identity in each table; badge ids and token ids are
    /// 1, 2, 3, ... in order; the counter is one past the last token.
    pub open spec fn wf(self) -> bool {
        &&& forall|i: int, j: int|
            0 <= i < j < self.badges.len() ==> #[trigger] self.badges[i].0 != #[trigger] self.badges[j].0
        &&& forall|i: int|
            0 <= i < self.badges.len() ==> (#[trigger] self.badges[i]).1.owner == self.badges[i].0
                && self.badges[i].1.id == i + 1
        &&& forall|i: int, j: int|
            0 <= i < j < self.nfts.len() ==> #[trigger] self.nfts[i].0 != #[trigger] self.nfts[j].0
        &&& forall|i: int| 0 <= i < self.nfts.len() ==> (#[trigger] self.nfts[i]).1 == i + 1
        &&& self.next_nft_id == self.nfts.len() + 1
    }

    pub open spec fn has_badge_outcome(self, caller: Seq<u8>) -> Result<bool, Abort> {
        if caller == anonymous_bytes() {
            Err(Abort::AnonymousCaller)
        } else {
            Ok(self.holds_badge(caller))
        }
    }

    pub open spec fn get_badge_outcome(self, caller: Seq<u8>) -> Result<Option<BadgeView>, Abort> {
        if caller == anonymous_bytes() {
            Err(Abort::AnonymousCaller)
        } else {
            Ok(self.badge_of(caller))
        }
    }

    /// The badge that a successful claim by `caller` appends.
    pub open spec fn next_badge(self, caller: Seq<u8>, metadata: Seq<char>, now: u64) -> BadgeView {
        BadgeView {
            id: (self.badges.len() + 1) as u64,
            owner: caller,
            metadata,
            timestamp: now,
        }
    }

    /// State after, and result of, `claim_badge`.
    pub open spec fn claim_outcome(self, caller: Seq<u8>, metadata: Seq<char>, now: u64) -> (
        RegistryModel,
        Result<bool, Abort>,
    ) {
        if caller == anonymous_bytes() {
            (self, Err(Abort::AnonymousCaller))
        } else if self.holds_badge(caller) {
            (self, Err(Abort::AlreadyClaimed))
        } else {
            (
                RegistryModel {
                    badges: self.badges.push((caller, self.next_badge(caller, metadata, now))),
                    ..self
                },
                Ok(true),
            )
        }
    }

    /// State after, and result of, `set_admin`.
    pub open spec fn set_admin_outcome(self, caller: Seq<u8>, self_id: Seq<u8>, new_admin: Seq<u8>) -> (
        RegistryModel,
        Result<(), Abort>,
    ) {
        if caller != self.admin && caller != self_id {
            (self, Err(Abort::NotAdminToSetAdmin))
        } else {
            (RegistryModel { admin: new_admin, ..self }, Ok(()))
        }
    }

    pub open spec fn all_badges_outcome(self, caller: Seq<u8>) -> Result<Seq<(Seq<u8>, BadgeView)>, Abort> {
        if caller != self.admin {
            Err(Abort::NotAdminToViewAll)
        } else {
            Ok(self.badges)
        }
    }

    /// With one entry per identity, the entry found at `i` is the badge of its key.
    pub proof fn lemma_badge_at(self, i: int)
        requires
            self.wf(),
            0 <= i < self.badges.len(),
        ensures
            self.holds_badge(self.badges[i].0),
            self.badge_of(self.badges[i].0) == Some(self.badges[i].1),
    {
        let who = self.badges[i].0;
        assert(self.holds_badge(who));
        let j = choose|j: int| 0 <= j < self.badges.len() && #[trigger] self.badges[j].0 == who;
        if i < j {
            assert(self.badges[i].0 != self.badges[j].0);
        } else if j < i {
            assert(self.badges[j].0 != self.badges[i].0);
        }
    }

    /// With one entry per identity, the entry found at `i` is the token of its key.
    pub proof fn lemma_nft_at(self, i: int)
        requires
            self.wf(),
            0 <= i < self.nfts.len(),
        ensures
            self.owns_nft(self.nfts[i].0),
            self.nft_of(self.nfts[i].0) == Some(self.nfts[i].1),
    {
        let who = self.nfts[i].0;
        assert(self.owns_nft(who));
        let j = choose|j: int| 0 <= j < self.nfts.len() && #[trigger] self.nfts[j].0 == who;
        if i < j {
            assert(self.nfts[i].0 != self.nfts[j].0);
        } else if j < i {
            assert(self.nfts[j].0 != self.nfts[i].0);
        }
    }

    /// With one entry per identity, there are as many badge holders as badges.
    pub proof fn lemma_badge_holders_len(self)
        requires
            self.wf(),
        ensures
            self.badge_holders().finite(),
            self.badge_holders().len() == self.badge_count(),
    {
        broadcast use vstd::seq_lib::seq_to_set_is_finite;

        let keys = self.badges.map_values(|e: (Seq<u8>, BadgeView)| e.0);
        assert forall|i: int, j: int|
            0 <= i < keys.len() && 0 <= j < keys.len() && i != j implies keys[i] != keys[j] by {
            if i < j {
                assert(self.badges[i].0 != self.badges[j].0);
            } else {
                assert(self.badges[j].0 != self.badges[i].0);
            }
        }
        keys.unique_seq_to_set();
        assert forall|who: Seq<u8>| self.holds_badge(who) <==> keys.contains(who) by {
            if self.holds_badge(who) {
                let i = choose|i: int| 0 <= i < self.badges.len() && #[trigger] self.badges[i].0 == who;
                assert(keys[i] == who);
            }
            if keys.contains(who) {
                let i = choose|i: int| 0 <= i < keys.len() && keys[i] == who;
                assert(self.badges[i].0 == who);
            }
        }
        assert(self.badge_holders() =~= keys.to_set());
    }

    /// With one entry per identity, there are as many token holders as tokens.
    pub proof fn lemma_nft_holders_len(self)
        requires
            self.wf(),
        ensures
            self.nft_holders().finite(),
            self.nft_holders().len() == self.nfts.len(),
    {
        broadcast use vstd::seq_lib::seq_to_set_is_finite;

        let keys = self.nfts.map_values(|e: (Seq<u8>, u64)| e.0);
        assert forall|i: int, j: int|
            0 <= i < keys.len() && 0 <= j < keys.len() && i != j implies keys[i] != keys[j] by {
            if i < j {
                assert(self.nfts[i].0 != self.nfts[j].0);
            } else {
                assert(self.nfts[j].0 != self.nfts[i].0);
            }
        }
        keys.unique_seq_to_set();
        assert forall|who: Seq<u8>| self.owns_nft(who) <==> keys.contains(who) by {
            if self.owns_nft(who) {
                let i = choose|i: int| 0 <= i < self.nfts.len() && #[trigger] self.nfts[i].0 == who;
                assert(keys[i] == who);
            }
            if keys.contains(who) {
                let i = choose|i: int| 0 <= i < keys.len() && keys[i] == who;
                assert(self.nfts[i].0 == who);
            }
        }
        assert(self.nft_holders() =~= keys.to_set());
    }

    /// State after, and result of, `mint_nft`.
    pub open spec fn mint_outcome(self, caller: Seq<u8>) -> (RegistryModel, Result<u64, Seq<char>>) {
        if self.owns_nft(caller) {
            (self, Err(already_minted_message()))
        } else {
            (
                RegistryModel {
                    nfts: self.nfts.push((caller, self.next_nft_id)),
                    next_nft_id: (self.next_nft_id + 1) as u64,
                    ..self
                },
                Ok(self.next_nft_id),
            )
        }
    }
}

} // verus!
