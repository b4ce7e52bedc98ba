use early_bird_badge::{Abort, Identity, Registry};

fn user(b: u8) -> Identity {
    Identity::from_bytes(vec![b, 0x01, 0x02])
}

fn fresh() -> Registry {
    Registry::init(user(100))
}

#[test]
fn admin_hand_over_scenario() {
    let creator = user(100);
    let canister = user(200);
    let x = user(1);
    let y = user(2);
    let mut r = Registry::init(creator.clone());
    assert!(r.admin() == creator);
    assert_eq!(r.set_admin(&creator, &canister, x.clone()), Ok(()));
    assert!(r.admin() == x);
    assert_eq!(
        r.set_admin(&creator, &canister, y.clone()),
        Err(Abort::NotAdminToSetAdmin)
    );
    assert!(r.admin() == x);
}

#[test]
fn canister_itself_may_set_admin() {
    let canister = user(200);
    let mut r = fresh();
    assert_eq!(r.set_admin(&canister, &canister, user(3)), Ok(()));
    assert!(r.admin() == user(3));
}

#[test]
fn set_admin_by_stranger_leaves_admin() {
    let mut r = fresh();
    assert_eq!(
        r.set_admin(&user(9), &user(200), user(9)),
        Err(Abort::NotAdminToSetAdmin)
    );
    assert!(r.admin() == user(100));
}

#[test]
fn claim_once_scenario() {
    let a = user(1);
    let mut r = fresh();
    assert_eq!(r.claim_badge(&a, "hello".to_string(), 10), Ok(true));
    assert_eq!(r.badge_count(), 1);
    assert_eq!(
        r.claim_badge(&a, "again".to_string(), 11),
        Err(Abort::AlreadyClaimed)
    );
    assert_eq!(r.badge_count(), 1);
    let b = r.get_badge(&a).unwrap().unwrap();
    assert_eq!(b.metadata, "hello");
    assert_eq!(b.id, 1);
    assert_eq!(b.timestamp, 10);
    assert!(b.owner == a);
}

#[test]
fn mint_scenario() {
    let mut r = fresh();
    assert_eq!(r.mint_nft(&user(1)), Ok(1));
    assert_eq!(r.mint_nft(&user(2)), Ok(2));
    assert_eq!(r.total_supply(), 2);
}

#[test]
fn second_mint_is_an_error_and_keeps_token() {
    let a = user(1);
    let mut r = fresh();
    assert_eq!(r.mint_nft(&user(7)), Ok(1));
    assert_eq!(r.mint_nft(&a), Ok(2));
    assert_eq!(
        r.mint_nft(&a),
        Err("You already have an Early Bird Badge NFT".to_string())
    );
    assert_eq!(r.get_nft_id(&a), Some(2));
    assert_eq!(r.total_supply(), 2);
}

#[test]
fn anonymous_may_mint() {
    let mut r = fresh();
    let anon = Identity::anonymous();
    assert_eq!(r.mint_nft(&anon), Ok(1));
    assert!(r.has_nft(&anon));
}

#[test]
fn nft_lookups() {
    let mut r = fresh();
    assert_eq!(r.total_supply(), 0);
    assert!(!r.has_nft(&user(1)));
    assert_eq!(r.get_nft_id(&user(1)), None);
    r.mint_nft(&user(1)).unwrap();
    assert!(r.has_nft(&user(1)));
    assert!(!r.has_nft(&user(2)));
    assert_eq!(r.get_nft_id(&user(1)), Some(1));
    assert_eq!(r.total_supply(), 1);
}

#[test]
fn total_supply_counts_holders() {
    let mut r = fresh();
    let users: Vec<Identity> = (1..=5).map(user).collect();
    for u in &users {
        r.mint_nft(u).unwrap();
    }
    assert!(r.mint_nft(&users[2]).is_err());
    let holders = users.iter().filter(|u| r.has_nft(u)).count() as u64;
    assert_eq!(r.total_supply(), holders);
    assert_eq!(r.total_supply(), 5);
}

#[test]
fn anonymous_caller_is_refused_badges() {
    let mut r = fresh();
    let anon = Identity::anonymous();
    assert!(anon.is_anonymous());
    assert_eq!(r.has_badge(&anon), Err(Abort::AnonymousCaller));
    assert!(matches!(r.get_badge(&anon), Err(Abort::AnonymousCaller)));
    assert_eq!(
        r.claim_badge(&anon, "x".to_string(), 1),
        Err(Abort::AnonymousCaller)
    );
    assert_eq!(r.badge_count(), 0);
}

#[test]
fn has_badge_agrees_with_get_badge() {
    let mut r = fresh();
    assert_eq!(r.has_badge(&user(1)), Ok(false));
    assert!(matches!(r.get_badge(&user(1)), Ok(None)));
    r.claim_badge(&user(1), "m".to_string(), 5).unwrap();
    assert_eq!(r.has_badge(&user(1)), Ok(true));
    assert!(matches!(r.get_badge(&user(1)), Ok(Some(_))));
    assert_eq!(r.has_badge(&user(2)), Ok(false));
    assert!(matches!(r.get_badge(&user(2)), Ok(None)));
}

#[test]
fn badge_ids_follow_claim_order() {
    let mut r = fresh();
    for b in [3u8, 1, 2] {
        assert_eq!(r.claim_badge(&user(b), format!("m{b}"), b as u64), Ok(true));
    }
    assert_eq!(r.get_badge(&user(3)).unwrap().unwrap().id, 1);
    assert_eq!(r.get_badge(&user(1)).unwrap().unwrap().id, 2);
    assert_eq!(r.get_badge(&user(2)).unwrap().unwrap().id, 3);
}

#[test]
fn badge_count_counts_distinct_claimants() {
    let mut r = fresh();
    let anon = Identity::anonymous();
    for b in [1u8, 2, 1, 3, 2] {
        let _ = r.claim_badge(&user(b), "m".to_string(), 0);
    }
    let _ = r.claim_badge(&anon, "m".to_string(), 0);
    assert_eq!(r.badge_count(), 3);
}

#[test]
fn all_badges_for_admin_only() {
    let admin = user(100);
    let mut r = Registry::init(admin.clone());
    r.claim_badge(&user(1), "one".to_string(), 11).unwrap();
    r.claim_badge(&user(2), "two".to_string(), 22).unwrap();
    assert!(matches!(
        r.get_all_badges(&user(1)),
        Err(Abort::NotAdminToViewAll)
    ));
    let all = r.get_all_badges(&admin).unwrap();
    assert_eq!(all.len() as u64, r.badge_count());
    assert!(all[0].0 == user(1));
    assert_eq!(all[0].1.id, 1);
    assert_eq!(all[0].1.metadata, "one");
    assert_eq!(all[0].1.timestamp, 11);
    assert!(all[1].0 == user(2));
    assert_eq!(all[1].1.id, 2);
    assert_eq!(all[1].1.metadata, "two");
    assert!(all[1].1.owner == user(2));
}

#[test]
fn all_badges_empty_registry() {
    let r = fresh();
    assert_eq!(r.get_all_badges(&user(100)).unwrap().len(), 0);
}

#[test]
fn abort_messages() {
    assert_eq!(
        Abort::AnonymousCaller.message(),
        "Anonymous principal not allowed"
    );
    assert_eq!(Abort::AlreadyClaimed.message(), "Badge already claimed");
    assert_eq!(
        Abort::NotAdminToSetAdmin.message(),
        "Only the admin can set a new admin"
    );
    assert_eq!(
        Abort::NotAdminToViewAll.message(),
        "Only admin can view all badges"
    );
}

#[test]
fn identity_equality_and_copy() {
    let a = user(1);
    assert!(a.same_as(&a.clone()));
    assert!(!a.same_as(&user(2)));
    assert!(!a.same_as(&Identity::from_bytes(vec![1])));
    assert_eq!(Identity::anonymous().as_bytes(), &[4u8][..]);
    assert!(!a.is_anonymous());
}
