use vstd::prelude::*;

use crate::badge::{badge_opt_view, Badge, BadgeView};
use crate::identity::{anonymous_bytes, Identity};
use crate::model::{Abort, RegistryModel};

verus! {

/// The badge and token tables and the admin singleton, owned by one process.
///
/// Whether an identity has claimed is read off the badge table itself; both
/// tables keep one entry per identity, in order of insertion.
pub struct Registry {
    badges: Vec<(Identity, Badge)>,
    admin: Identity,
    nfts: Vec<(Identity, u64)>,
    next_nft_id: u64,
}

/// The view of a list of badges with their holders.
pub open spec fn entries_view(v: Seq<(Identity, Badge)>) -> Seq<(Seq<u8>, BadgeView)> {
    v.map_values(|e: (Identity, Badge)| (e.0@, e.1@))
}

/// The view of the result of `get_badge`.
pub open spec fn badge_result_view(r: Result<Option<Badge>, Abort>) -> Result<Option<BadgeView>, Abort> {
    match r {
        Ok(o) => Ok(badge_opt_view(o)),
        Err(e) => Err(e),
    }
}

/// The view of the result of `get_all_badges`.
pub open spec fn entries_result_view(r: Result<Vec<(Identity, Badge)>, Abort>) -> Result<
    Seq<(Seq<u8>, BadgeView)>,
    Abort,
> {
    match r {
        Ok(v) => Ok(entries_view(v@)),
        Err(e) => Err(e),
    }
}

/// The view of the result of `mint_nft`.
pub open spec fn mint_result_view(r: Result<u64, String>) -> Result<u64, Seq<char>> {
    match r {
        Ok(t) => Ok(t),
        Err(s) => Err(s@),
    }
}

impl View for Registry {
    type V = RegistryModel;

    closed spec fn view(&self) -> RegistryModel {
        RegistryModel {
            badges: entries_view(self.badges@),
            admin: self.admin@,
            nfts: self.nfts@.map_values(|e: (Identity, u64)| (e.0@, e.1)),
            next_nft_id: self.next_nft_id,
        }
    }
}

impl Registry {
    pub open spec fn wf(&self) -> bool {
        self@.wf()
    }

    /// Lifecycle hook: a fresh registry whose admin is its creator.
    pub fn init(creator: Identity) -> (r: Registry)
        ensures
            r@ == RegistryModel::initial(creator@),
            r.wf(),
    {
        let r = Registry { badges: Vec::new(), admin: creator, nfts: Vec::new(), next_nft_id: 1 };
        proof {
            assert(r@.badges =~= Seq::empty());
            assert(r@.nfts =~= Seq::empty());
        }
        r
    }

    /// The index of `who` in the badge table, if present.
    fn find_badge(&self, who: &Identity) -> (r: Option<usize>)
        requires
            self.wf(),
        ensures
            match r {
                Some(i) => i < self@.badges.len() && self@.badges[i as int].0 == who@,
                None => !self@.holds_badge(who@),
            },
    {
        let mut i: usize = 0;
        while i < self.badges.len()
            invariant
                i <= self.badges@.len(),
                forall|k: int| 0 <= k < i ==> self@.badges[k].0 != who@,
            decreases self.badges@.len() - i,
        {
            if self.badges[i].0.same_as(who) {
                return Some(i);
            }
            i = i + 1;
        }
        None
    }

    /// The index of `who` in the token table, if present.
    fn find_nft(&self, who: &Identity) -> (r: Option<usize>)
        requires
            self.wf(),
        ensures
            match r {
                Some(i) => i < self@.nfts.len() && self@.nfts[i as int].0 == who@,
                None => !self@.owns_nft(who@),
            },
    {
        let mut i: usize = 0;
        while i < self.nfts.len()
            invariant
                i <= self.nfts@.len(),
                forall|k: int| 0 <= k < i ==> self@.nfts[k].0 != who@,
            decreases self.nfts@.len() - i,
        {
            if self.nfts[i].0.same_as(who) {
                return Some(i);
            }
            i = i + 1;
        }
        None
    }

    /// Whether the caller holds a badge; the anonymous caller is refused.
    pub fn has_badge(&self, caller: &Identity) -> (r: Result<bool, Abort>)
        requires
            self.wf(),
        ensures
            r == self@.has_badge_outcome(caller@),
    {
        if caller.is_anonymous() {
            return Err(Abort::AnonymousCaller);
        }
        Ok(self.find_badge(caller).is_some())
    }

    /// The caller's badge, if any; the anonymous caller is refused.
    pub fn get_badge(&self, caller: &Identity) -> (r: Result<Option<Badge>, Abort>)
        requires
            self.wf(),
        ensures
            badge_result_view(r) == self@.get_badge_outcome(caller@),
    {
        if caller.is_anonymous() {
            return Err(Abort::AnonymousCaller);
        }
        match self.find_badge(caller) {
            Some(i) => {
                proof {
                    self@.lemma_badge_at(i as int);
                }
                Ok(Some(self.badges[i].1.duplicate()))
            },
            None => Ok(None),
        }
    }

    /// Issues the caller's badge, numbered one past the current count and
    /// stamped with `now`. Refuses the anonymous caller and a second claim.
    pub fn claim_badge(&mut self, caller: &Identity, metadata: String, now: u64) -> (r: Result<
        bool,
        Abort,
    >)
        requires
            old(self).wf(),
            old(self)@.badge_count() < u64::MAX,
        ensures
            (final(self)@, r) == old(self)@.claim_outcome(caller@, metadata@, now),
            final(self).wf(),
    {
        if caller.is_anonymous() {
            return Err(Abort::AnonymousCaller);
        }
        if self.find_badge(caller).is_some() {
            return Err(Abort::AlreadyClaimed);
        }
        let ghost before = self@;
        let id = self.badges.len() as u64 + 1;
        let badge = Badge::new(id, caller.duplicate(), metadata, now);
        self.badges.push((caller.duplicate(), badge));
        proof {
            let entry = (caller@, before.next_badge(caller@, metadata@, now));
            assert(self@.badges =~= before.badges.push(entry));
            assert(self@ == RegistryModel { badges: before.badges.push(entry), ..before });
            assert forall|i: int, j: int|
                0 <= i < j < self@.badges.len() implies #[trigger] self@.badges[i].0
                != #[trigger] self@.badges[j].0 by {
                if j == before.badges.len() {
                    assert(before.badges[i].0 != caller@);
                }
            }
        }
        Ok(true)
    }

    /// Names a new admin. Only the current admin or the canister itself
    /// (`self_id`) may do so; the new admin is not checked.
    pub fn set_admin(&mut self, caller: &Identity, self_id: &Identity, new_admin: Identity) -> (r:
        Result<(), Abort>)
        requires
            old(self).wf(),
        ensures
            (final(self)@, r) == old(self)@.set_admin_outcome(caller@, self_id@, new_admin@),
            final(self).wf(),
    {
        if !caller.same_as(&self.admin) && !caller.same_as(self_id) {
            return Err(Abort::NotAdminToSetAdmin);
        }
        self.admin = new_admin;
        Ok(())
    }

    /// The current admin.
    pub fn admin(&self) -> (r: Identity)
        ensures
            r@ == self@.admin,
    {
        self.admin.duplicate()
    }

    /// Every badge with its holder, in order of issuance; admin only.
    pub fn get_all_badges(&self, caller: &Identity) -> (r: Result<Vec<(Identity, Badge)>, Abort>)
        requires
            self.wf(),
        ensures
            entries_result_view(r) == self@.all_badges_outcome(caller@),
    {
        if !caller.same_as(&self.admin) {
            return Err(Abort::NotAdminToViewAll);
        }
        let mut out: Vec<(Identity, Badge)> = Vec::new();
        let mut i: usize = 0;
        while i < self.badges.len()
            invariant
                i <= self.badges@.len(),
                entries_view(out@) == self@.badges.subrange(0, i as int),
            decreases self.badges@.len() - i,
        {
            let ghost prev = out@;
            let entry = (self.badges[i].0.duplicate(), self.badges[i].1.duplicate());
            out.push(entry);
            proof {
                assert(entries_view(out@) =~= entries_view(prev).push((entry.0@, entry.1@)));
                assert(self@.badges[i as int] == (self.badges@[i as int].0@, self.badges@[i as int].1@));
                assert(self@.badges.subrange(0, i + 1) =~= self@.badges.subrange(0, i as int).push(
                    self@.badges[i as int],
                ));
            }
            i = i + 1;
        }
        proof {
            assert(self@.badges.subrange(0, i as int) =~= self@.badges);
        }
        Ok(out)
    }

    /// The number of badges issued.
    pub fn badge_count(&self) -> (r: u64)
        ensures
            r == self@.badge_count(),
    {
        self.badges.len() as u64
    }

    /// Gives the caller the next token id, unless it holds one already, in
    /// which case the state is left as it was and an error text returned.
    /// The anonymous caller is not refused.
    pub fn mint_nft(&mut self, caller: &Identity) -> (r: Result<u64, String>)
        requires
            old(self).wf(),
            old(self)@.next_nft_id < u64::MAX,
        ensures
            (final(self)@, mint_result_view(r)) == old(self)@.mint_outcome(caller@),
            final(self).wf(),
    {
        if self.has_nft(caller) {
            return Err("You already have an Early Bird Badge NFT".to_owned());
        }
        let ghost before = self@;
        let nft_id = self.next_nft_id;
        self.next_nft_id = nft_id + 1;
        self.nfts.push((caller.duplicate(), nft_id));
        proof {
            let entry = (caller@, nft_id);
            assert(self@.nfts =~= before.nfts.push(entry));
            assert forall|i: int, j: int|
                0 <= i < j < self@.nfts.len() implies #[trigger] self@.nfts[i].0
                != #[trigger] self@.nfts[j].0 by {
                if j == before.nfts.len() {
                    assert(before.nfts[i].0 != caller@);
                }
            }
        }
        Ok(nft_id)
    }

    /// Whether `user` holds a token.
    pub fn has_nft(&self, user: &Identity) -> (r: bool)
        requires
            self.wf(),
        ensures
            r == self@.owns_nft(user@),
    {
        self.find_nft(user).is_some()
    }

    /// The token id held by `user`, if any.
    pub fn get_nft_id(&self, user: &Identity) -> (r: Option<u64>)
        requires
            self.wf(),
        ensures
            r == self@.nft_of(user@),
    {
        match self.find_nft(user) {
            Some(i) => {
                proof {
                    self@.lemma_nft_at(i as int);
                }
                Some(self.nfts[i].1)
            },
            None => None,
        }
    }

    /// The number of tokens minted: one less than the next token id.
    pub fn total_supply(&self) -> (r: u64)
        ensures
            r == self@.total_supply(),
    {
        if self.next_nft_id > 0 {
            self.next_nft_id - 1
        } else {
            0
        }
    }
}

} // verus!
