use vstd::prelude::*;

use crate::badge::BadgeView;
use crate::identity::anonymous_bytes;
use crate::model::{already_minted_message, Abort, RegistryModel};

verus! {

/// A claim as a call makes it: caller, metadata and host time.
pub type Claim = (Seq<u8>, Seq<char>, u64);

/// The registry after `claims` were attempted on `m`, in order; a refused
/// claim leaves the state as it was.
pub open spec fn claim_all(m: RegistryModel, claims: Seq<Claim>) -> RegistryModel
    decreases claims.len(),
{
    if claims.len() == 0 {
        m
    } else {
        let c = claims.last();
        claim_all(m, claims.drop_last()).claim_outcome(c.0, c.1, c.2).0
    }
}

/// The identities that would hold a badge after `claims`: every caller that
/// is not anonymous.
pub open spec fn claimants(claims: Seq<Claim>) -> Set<Seq<u8>> {
    Set::new(
        |who: Seq<u8>|
            who != anonymous_bytes() && exists|k: int| 0 <= k < claims.len() && #[trigger] claims[k].0 == who,
    )
}

/// Every operation that changes the registry keeps it well formed: one
/// entry per identity in each table, ids in sequence, the counter one past
/// the last token.
pub proof fn lemma_operations_keep_wf(
    m: RegistryModel,
    caller: Seq<u8>,
    self_id: Seq<u8>,
    new_admin: Seq<u8>,
    metadata: Seq<char>,
    now: u64,
)
    requires
        m.wf(),
    ensures
        m.badge_count() < u64::MAX ==> m.claim_outcome(caller, metadata, now).0.wf(),
        m.set_admin_outcome(caller, self_id, new_admin).0.wf(),
        m.next_nft_id < u64::MAX ==> m.mint_outcome(caller).0.wf(),
{
    if m.badge_count() < u64::MAX {
        lemma_claim_keeps_wf(m, caller, metadata, now);
    }
    if m.next_nft_id < u64::MAX && !m.owns_nft(caller) {
        let m1 = m.mint_outcome(caller).0;
        assert forall|i: int, j: int|
            0 <= i < j < m1.nfts.len() implies #[trigger] m1.nfts[i].0 != #[trigger] m1.nfts[j].0 by {
            if j == m.nfts.len() {
                assert(m.nfts[i].0 != caller);
            }
        }
    }
}

proof fn lemma_claim_keeps_wf(m: RegistryModel, caller: Seq<u8>, metadata: Seq<char>, now: u64)
    requires
        m.wf(),
        m.badge_count() < u64::MAX,
    ensures
        m.claim_outcome(caller, metadata, now).0.wf(),
{
    if caller != anonymous_bytes() && !m.holds_badge(caller) {
        let m1 = m.claim_outcome(caller, metadata, now).0;
        assert forall|i: int, j: int|
            0 <= i < j < m1.badges.len() implies #[trigger] m1.badges[i].0 != #[trigger] m1.badges[j].0 by {
            if j == m.badges.len() {
                assert(m.badges[i].0 != caller);
            }
        }
    }
}

/// `has_badge` and `get_badge` agree: both refuse the same callers, and
/// `has_badge` is true exactly when `get_badge` finds a badge.
pub proof fn lemma_has_badge_iff_get_badge(m: RegistryModel, caller: Seq<u8>)
    requires
        m.wf(),
    ensures
        match m.get_badge_outcome(caller) {
            Ok(o) => m.has_badge_outcome(caller) == Ok::<bool, Abort>(o is Some),
            Err(e) => m.has_badge_outcome(caller) == Err::<bool, Abort>(e),
        },
{
}

/// After a successful claim, a second claim by the same identity, with any
/// metadata, is refused and changes nothing; the identity holds exactly one
/// badge, the first one.
pub proof fn lemma_second_claim_aborts(
    m: RegistryModel,
    who: Seq<u8>,
    metadata: Seq<char>,
    now: u64,
    metadata2: Seq<char>,
    now2: u64,
)
    requires
        m.wf(),
        m.badge_count() < u64::MAX,
        m.claim_outcome(who, metadata, now).1 == Ok::<bool, Abort>(true),
    ensures
        ({
            let m1 = m.claim_outcome(who, metadata, now).0;
            &&& m1.claim_outcome(who, metadata2, now2) == (m1, Err::<bool, Abort>(Abort::AlreadyClaimed))
            &&& m1.badge_of(who) == Some(m.next_badge(who, metadata, now))
            &&& forall|i: int, j: int|
                0 <= i < m1.badges.len() && 0 <= j < m1.badges.len() && m1.badges[i].0 == who
                    && m1.badges[j].0 == who ==> i == j
        }),
{
    let m1 = m.claim_outcome(who, metadata, now).0;
    lemma_claim_keeps_wf(m, who, metadata, now);
    m1.lemma_badge_at(m.badges.len() as int);
    assert forall|i: int, j: int|
        0 <= i < m1.badges.len() && 0 <= j < m1.badges.len() && m1.badges[i].0 == who
            && m1.badges[j].0 == who implies i == j by {
        if i < j {
            assert(m1.badges[i].0 != m1.badges[j].0);
        } else if j < i {
            assert(m1.badges[j].0 != m1.badges[i].0);
        }
    }
}

/// Distinct identities claiming in turn on a fresh registry all succeed, and
/// the badges they get are numbered 1, 2, 3, ... in the order of the calls.
pub proof fn lemma_badge_ids_follow_claim_order(creator: Seq<u8>, claims: Seq<Claim>)
    requires
        claims.len() < u64::MAX,
        forall|k: int| 0 <= k < claims.len() ==> (#[trigger] claims[k]).0 != anonymous_bytes(),
        forall|k: int, l: int|
            0 <= k < l < claims.len() ==> (#[trigger] claims[k]).0 != (#[trigger] claims[l]).0,
    ensures
        forall|k: int|
            0 <= k < claims.len() ==> claim_all(RegistryModel::initial(creator), claims.take(k)).claim_outcome(
                (#[trigger] claims[k]).0,
                claims[k].1,
                claims[k].2,
            ).1 == Ok::<bool, Abort>(true),
        claim_all(RegistryModel::initial(creator), claims).badges.len() == claims.len(),
        forall|k: int|
            0 <= k < claims.len() ==> claim_all(RegistryModel::initial(creator), claims).badges[k] == (
                (#[trigger] claims[k]).0,
                BadgeView {
                    id: (k + 1) as u64,
                    owner: claims[k].0,
                    metadata: claims[k].1,
                    timestamp: claims[k].2,
                },
            ),
    decreases claims.len(),
{
    let m0 = RegistryModel::initial(creator);
    if claims.len() > 0 {
        let rest = claims.drop_last();
        lemma_badge_ids_follow_claim_order(creator, rest);
        lemma_claim_all_keeps_wf(creator, rest);
        let p = claim_all(m0, rest);
        let n = rest.len() as int;
        let c = claims.last();
        assert(!p.holds_badge(c.0)) by {
            if p.holds_badge(c.0) {
                let i = choose|i: int| 0 <= i < p.badges.len() && #[trigger] p.badges[i].0 == c.0;
                assert(rest[i] == claims[i]);
                assert(claims[i].0 != claims[n].0);
            }
        }
        assert forall|k: int| 0 <= k < claims.len() implies claim_all(m0, claims.take(k)).claim_outcome(
            (#[trigger] claims[k]).0,
            claims[k].1,
            claims[k].2,
        ).1 == Ok::<bool, Abort>(true) by {
            if k < n {
                assert(claims.take(k) =~= rest.take(k));
                assert(rest[k] == claims[k]);
            } else {
                assert(claims.take(k) =~= rest);
            }
        }
        assert forall|k: int| 0 <= k < claims.len() implies claim_all(m0, claims).badges[k] == (
            (#[trigger] claims[k]).0,
            BadgeView {
                id: (k + 1) as u64,
                owner: claims[k].0,
                metadata: claims[k].1,
                timestamp: claims[k].2,
            },
        ) by {
            if k < n {
                assert(rest[k] == claims[k]);
            }
        }
    }
}

/// Any sequence of claims keeps a fresh registry well formed.
proof fn lemma_claim_all_keeps_wf(creator: Seq<u8>, claims: Seq<Claim>)
    requires
        claims.len() < u64::MAX,
    ensures
        claim_all(RegistryModel::initial(creator), claims).wf(),
        claim_all(RegistryModel::initial(creator), claims).badge_count() <= claims.len(),
    decreases claims.len(),
{
    if claims.len() > 0 {
        let rest = claims.drop_last();
        lemma_claim_all_keeps_wf(creator, rest);
        let c = claims.last();
        lemma_claim_keeps_wf(claim_all(RegistryModel::initial(creator), rest), c.0, c.1, c.2);
    }
}

/// After any sequence of claims on a fresh registry, the badge count is the
/// number of distinct identities whose claim succeeded: every caller but the
/// anonymous one.
pub proof fn lemma_badge_count_is_distinct_claimants(creator: Seq<u8>, claims: Seq<Claim>)
    requires
        claims.len() < u64::MAX,
    ensures
        claimants(claims).finite(),
        claim_all(RegistryModel::initial(creator), claims).badge_count() == claimants(claims).len(),
{
    let m = claim_all(RegistryModel::initial(creator), claims);
    lemma_claim_all_keeps_wf(creator, claims);
    lemma_holders_are_claimants(creator, claims);
    m.lemma_badge_holders_len();
    assert(m.badge_holders() =~= claimants(claims));
}

proof fn lemma_holders_are_claimants(creator: Seq<u8>, claims: Seq<Claim>)
    requires
        claims.len() < u64::MAX,
    ensures
        forall|who: Seq<u8>|
            claim_all(RegistryModel::initial(creator), claims).holds_badge(who) <==> #[trigger] claimants(
                claims,
            ).contains(who),
    decreases claims.len(),
{
    let m0 = RegistryModel::initial(creator);
    if claims.len() > 0 {
        let rest = claims.drop_last();
        lemma_holders_are_claimants(creator, rest);
        let p = claim_all(m0, rest);
        let m = claim_all(m0, claims);
        let c = claims.last();
        let n = rest.len() as int;
        assert forall|who: Seq<u8>| m.holds_badge(who) <==> #[trigger] claimants(claims).contains(who) by {
            if m.holds_badge(who) {
                let i = choose|i: int| 0 <= i < m.badges.len() && #[trigger] m.badges[i].0 == who;
                if i < p.badges.len() {
                    assert(p.badges[i] == m.badges[i]);
                    assert(p.holds_badge(who));
                    assert(claimants(rest).contains(who));
                    let k = choose|k: int| 0 <= k < rest.len() && #[trigger] rest[k].0 == who;
                    assert(claims[k] == rest[k]);
                } else {
                    assert(c.0 != anonymous_bytes());
                    assert(claims[n].0 == who);
                }
                assert(claimants(claims).contains(who));
            }
            if claimants(claims).contains(who) {
                let k = choose|k: int| 0 <= k < claims.len() && #[trigger] claims[k].0 == who;
                if k < n {
                    assert(rest[k] == claims[k]);
                    assert(claimants(rest).contains(who));
                    let i = choose|i: int| 0 <= i < p.badges.len() && #[trigger] p.badges[i].0 == who;
                    assert(m.badges[i] == p.badges[i]);
                } else if !p.holds_badge(who) {
                    assert(m.badges[p.badges.len() as int].0 == who);
                } else {
                    let i = choose|i: int| 0 <= i < p.badges.len() && #[trigger] p.badges[i].0 == who;
                    assert(m.badges[i] == p.badges[i]);
                }
            }
        }
    }
}

/// Minting twice: the first mint by an identity without a token gives it the
/// next id; the second returns the error text, changes nothing, and the
/// identity keeps the first id.
pub proof fn lemma_second_mint_fails(m: RegistryModel, who: Seq<u8>)
    requires
        m.wf(),
        m.next_nft_id < u64::MAX,
        !m.owns_nft(who),
    ensures
        ({
            let (m1, r1) = m.mint_outcome(who);
            &&& r1 == Ok::<u64, Seq<char>>(m.next_nft_id)
            &&& m1.mint_outcome(who) == (m1, Err::<u64, Seq<char>>(already_minted_message()))
            &&& m1.nft_of(who) == Some(m.next_nft_id)
        }),
{
    let m1 = m.mint_outcome(who).0;
    lemma_operations_keep_wf(m, who, who, who, Seq::empty(), 0);
    m1.lemma_nft_at(m.nfts.len() as int);
}

/// The total supply is the number of identities that hold a token.
pub proof fn lemma_total_supply_counts_holders(m: RegistryModel)
    requires
        m.wf(),
    ensures
        m.nft_holders().finite(),
        m.total_supply() == m.nft_holders().len(),
{
    m.lemma_nft_holders_len();
}

/// A caller that is neither the admin nor the canister itself cannot name an
/// admin: the call is refused and the admin stays.
pub proof fn lemma_set_admin_needs_authority(
    m: RegistryModel,
    caller: Seq<u8>,
    self_id: Seq<u8>,
    new_admin: Seq<u8>,
)
    requires
        caller != m.admin,
        caller != self_id,
    ensures
        m.set_admin_outcome(caller, self_id, new_admin) == (m, Err::<(), Abort>(Abort::NotAdminToSetAdmin)),
        m.set_admin_outcome(caller, self_id, new_admin).0.admin == m.admin,
{
}

/// Listing every badge: refused to anyone but the admin; for the admin, one
/// entry per badge, each the holder with its badge.
pub proof fn lemma_all_badges_lists_every_claim(m: RegistryModel, caller: Seq<u8>)
    requires
        m.wf(),
    ensures
        caller != m.admin ==> m.all_badges_outcome(caller) == Err::<Seq<(Seq<u8>, BadgeView)>, Abort>(
            Abort::NotAdminToViewAll,
        ),
        caller == m.admin ==> ({
            let s = m.all_badges_outcome(caller)->Ok_0;
            &&& m.all_badges_outcome(caller) is Ok
            &&& s.len() == m.badge_count()
            &&& forall|who: Seq<u8>|
                #[trigger] m.holds_badge(who) ==> exists|i: int|
                    0 <= i < s.len() && s[i] == (who, m.badge_of(who)->Some_0)
            &&& forall|i: int| 0 <= i < s.len() ==> m.badge_of((#[trigger] s[i]).0) == Some(s[i].1)
        }),
{
    assert forall|i: int| 0 <= i < m.badges.len() implies m.badge_of((#[trigger] m.badges[i]).0) == Some(
        m.badges[i].1,
    ) by {
        m.lemma_badge_at(i);
    }
    assert forall|who: Seq<u8>| #[trigger] m.holds_badge(who) implies exists|i: int|
        0 <= i < m.badges.len() && m.badges[i] == (who, m.badge_of(who)->Some_0) by {
        let i = choose|i: int| 0 <= i < m.badges.len() && #[trigger] m.badges[i].0 == who;
        m.lemma_badge_at(i);
    }
}

} // verus!
