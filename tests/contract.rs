use arkana_core::contract::ArkanaCoreContract;
use arkana_core::error::ArkanaError;

const NOW: u64 = 1_700_000_000_000;

fn s(x: &str) -> String {
    x.to_string()
}

fn seed(n: u32) -> Vec<u8> {
    let mut v = n.to_le_bytes().to_vec();
    v.extend_from_slice(&[0u8; 28]);
    v
}

/// A contract owned by "owner" with "member" allowed to grant points.
fn setup(daily: u64, spin_price: u64) -> ArkanaCoreContract {
    let mut c = ArkanaCoreContract::new(s("owner"), daily, spin_price);
    c.add_membership_nft_contract(s("owner"), s("member")).unwrap();
    c
}

fn grant(c: &mut ArkanaCoreContract, who: &str, points: u64) {
    c.register_account(s(who)).unwrap();
    c.generate_points(s("member"), s(who), points).unwrap();
}

#[test]
fn two_buyers_then_draw_picks_floor_range() {
    let mut c = setup(10, 5);
    grant(&mut c, "alice", 100);
    grant(&mut c, "bob", 30);
    let id = c.create_reward(s("owner"), s("prize"), 10, NOW + 1000).unwrap();
    assert_eq!(id, 1);
    assert_eq!(c.buy_ticket(s("alice"), NOW, id, 5), Ok((1, 5)));
    assert_eq!(c.get_user(s("alice")).unwrap().points, 50);
    assert_eq!(c.get_ticket_ranges(id).unwrap(), vec![(0, 5, s("alice"))]);
    assert_eq!(c.buy_ticket(s("bob"), NOW, id, 3), Ok((1, 3)));
    assert_eq!(c.get_user(s("bob")).unwrap().points, 0);
    assert_eq!(
        c.get_ticket_ranges(id).unwrap(),
        vec![(0, 5, s("alice")), (5, 8, s("bob"))]
    );
    assert_eq!(c.get_reward(id).unwrap().total_tickets, 8);
    assert_eq!(c.finalize_reward(id, NOW + 1000, &seed(6)), Ok(s("bob")));
    let r = c.get_reward(id).unwrap();
    assert_eq!(r.winner, Some(s("bob")));
    assert_eq!(r.total_tickets, 8);
    assert_eq!(c.get_ticket_ranges(id).unwrap(), vec![]);
}

#[test]
fn draw_in_first_range_picks_first_buyer() {
    let mut c = setup(10, 5);
    grant(&mut c, "alice", 100);
    grant(&mut c, "bob", 30);
    let id = c.create_reward(s("owner"), s("prize"), 10, NOW + 1000).unwrap();
    c.buy_ticket(s("alice"), NOW, id, 5).unwrap();
    c.buy_ticket(s("bob"), NOW, id, 3).unwrap();
    // 12 % 8 == 4, inside [0, 5)
    assert_eq!(c.finalize_reward(id, NOW + 2000, &seed(12)), Ok(s("alice")));
}

#[test]
fn exact_balance_buys_one_then_fails() {
    let mut c = setup(10, 5);
    grant(&mut c, "alice", 7);
    let id = c.create_reward(s("owner"), s("prize"), 7, NOW + 1000).unwrap();
    assert_eq!(c.buy_ticket(s("alice"), NOW, id, 1), Ok((1, 1)));
    assert_eq!(c.get_user(s("alice")).unwrap().points, 0);
    assert_eq!(c.buy_ticket(s("alice"), NOW, id, 1), Err(ArkanaError::InsufficientPoints));
    assert_eq!(c.get_user(s("alice")).unwrap().points, 0);
    assert_eq!(c.get_reward(id).unwrap().total_tickets, 1);
}

#[test]
fn overflowing_cost_is_insufficient() {
    let mut c = setup(10, 5);
    grant(&mut c, "alice", u64::MAX);
    let id = c.create_reward(s("owner"), s("prize"), 2, NOW + 1000).unwrap();
    assert_eq!(c.buy_ticket(s("alice"), NOW, id, u64::MAX), Err(ArkanaError::InsufficientPoints));
    assert_eq!(c.get_user(s("alice")).unwrap().points, u64::MAX);
}

#[test]
fn daily_claim_twice_hits_cooldown() {
    let mut c = setup(25, 5);
    c.register_account(s("alice")).unwrap();
    assert_eq!(c.daily_claim_point(s("alice"), NOW), Ok(25));
    assert_eq!(c.daily_claim_point(s("alice"), NOW), Err(ArkanaError::CooldownActive(86400)));
    assert_eq!(
        c.daily_claim_point(s("alice"), NOW + 1500),
        Err(ArkanaError::CooldownActive(86398))
    );
    assert_eq!(
        c.daily_claim_point(s("alice"), NOW + 86_399_999),
        Err(ArkanaError::CooldownActive(0))
    );
    assert_eq!(c.get_user(s("alice")).unwrap().points, 25);
    assert_eq!(c.daily_claim_point(s("alice"), NOW + 86_400_000), Ok(50));
    let u = c.get_user(s("alice")).unwrap();
    assert_eq!(u.last_daily_claim, NOW + 86_400_000);
}

#[test]
fn first_claim_succeeds() {
    let mut c = setup(25, 5);
    c.register_account(s("alice")).unwrap();
    assert_eq!(c.daily_claim_point(s("alice"), 86_400_000), Ok(25));
}

#[test]
fn claim_with_clock_behind_reports_full_wait() {
    let mut c = setup(25, 5);
    c.register_account(s("alice")).unwrap();
    c.daily_claim_point(s("alice"), NOW).unwrap();
    assert_eq!(
        c.daily_claim_point(s("alice"), NOW - 2500),
        Err(ArkanaError::CooldownActive(86402))
    );
}

#[test]
fn finalize_twice_fails_and_keeps_winner() {
    let mut c = setup(10, 5);
    grant(&mut c, "alice", 100);
    let id = c.create_reward(s("owner"), s("prize"), 1, NOW + 10).unwrap();
    c.buy_ticket(s("alice"), NOW, id, 4).unwrap();
    assert_eq!(c.finalize_reward(id, NOW + 10, &seed(3)), Ok(s("alice")));
    assert_eq!(c.finalize_reward(id, NOW + 20, &seed(0)), Err(ArkanaError::AlreadyFinalized));
    assert_eq!(c.get_reward(id).unwrap().winner, Some(s("alice")));
}

#[test]
fn same_seed_same_winner() {
    let mut a = setup(10, 5);
    let mut b = setup(10, 5);
    for c in [&mut a, &mut b] {
        grant(c, "alice", 100);
        grant(c, "bob", 100);
        grant(c, "carol", 100);
        let id = c.create_reward(s("owner"), s("prize"), 1, NOW + 10).unwrap();
        c.buy_ticket(s("alice"), NOW, id, 3).unwrap();
        c.buy_ticket(s("bob"), NOW, id, 2).unwrap();
        c.buy_ticket(s("carol"), NOW, id, 4).unwrap();
    }
    let wa = a.finalize_reward(1, NOW + 10, &seed(123_457)).unwrap();
    let wb = b.finalize_reward(1, NOW + 10, &seed(123_457)).unwrap();
    assert_eq!(wa, wb);
    // 123457 % 9 == 4, inside bob's [3, 5)
    assert_eq!(wa, s("bob"));
}

#[test]
fn finalize_errors() {
    let mut c = setup(10, 5);
    grant(&mut c, "alice", 100);
    let id = c.create_reward(s("owner"), s("prize"), 1, NOW + 10).unwrap();
    assert_eq!(c.finalize_reward(id, NOW, &seed(0)), Err(ArkanaError::RewardNotEnded));
    assert_eq!(c.finalize_reward(id, NOW + 10, &seed(0)), Err(ArkanaError::NoTicketsSold));
    assert_eq!(c.finalize_reward(9, NOW + 10, &seed(0)), Err(ArkanaError::NotFound));
    assert_eq!(c.finalize_reward(0, NOW + 10, &seed(0)), Err(ArkanaError::NotFound));
}

#[test]
fn buy_errors() {
    let mut c = setup(10, 5);
    grant(&mut c, "alice", 100);
    let id = c.create_reward(s("owner"), s("prize"), 1, NOW + 10).unwrap();
    assert_eq!(c.buy_ticket(s("alice"), NOW + 10, id, 1), Err(ArkanaError::RewardEnded));
    assert_eq!(c.buy_ticket(s("nobody"), NOW, id, 1), Err(ArkanaError::NotFound));
    assert_eq!(c.buy_ticket(s("alice"), NOW, 2, 1), Err(ArkanaError::NotFound));
    let free = c.create_reward(s("owner"), s("free"), 0, NOW + 10).unwrap();
    c.buy_ticket(s("alice"), NOW, free, u64::MAX).unwrap();
    assert_eq!(c.buy_ticket(s("alice"), NOW, free, 1), Err(ArkanaError::Overflow));
}

#[test]
fn empty_purchase_range_is_replaced() {
    let mut c = setup(10, 5);
    grant(&mut c, "alice", 100);
    grant(&mut c, "bob", 100);
    let id = c.create_reward(s("owner"), s("prize"), 1, NOW + 10).unwrap();
    c.buy_ticket(s("alice"), NOW, id, 2).unwrap();
    c.buy_ticket(s("alice"), NOW, id, 0).unwrap();
    assert_eq!(
        c.get_ticket_ranges(id).unwrap(),
        vec![(0, 2, s("alice")), (2, 2, s("alice"))]
    );
    c.buy_ticket(s("bob"), NOW, id, 1).unwrap();
    assert_eq!(
        c.get_ticket_ranges(id).unwrap(),
        vec![(0, 2, s("alice")), (2, 3, s("bob"))]
    );
}

#[test]
fn same_buyer_ranges_stay_apart() {
    let mut c = setup(10, 5);
    grant(&mut c, "alice", 100);
    let id = c.create_reward(s("owner"), s("prize"), 1, NOW + 10).unwrap();
    for amount in [3u64, 1, 4, 1, 5] {
        c.buy_ticket(s("alice"), NOW, id, amount).unwrap();
    }
    let ranges = c.get_ticket_ranges(id).unwrap();
    assert_eq!(ranges.len(), 5);
    let mut next = 0;
    for (start, end, owner) in ranges {
        assert_eq!(start, next);
        assert!(end > start);
        assert_eq!(owner, s("alice"));
        next = end;
    }
    assert_eq!(next, 14);
    assert_eq!(c.get_reward(id).unwrap().total_tickets, 14);
}

#[test]
fn owner_only_operations() {
    let mut c = setup(10, 5);
    assert_eq!(
        c.create_reward(s("mallory"), s("prize"), 1, NOW),
        Err(ArkanaError::Unauthorized)
    );
    assert_eq!(
        c.add_membership_nft_contract(s("mallory"), s("x")),
        Err(ArkanaError::Unauthorized)
    );
    assert_eq!(
        c.remove_membership_nft_contract(s("mallory"), s("member")),
        Err(ArkanaError::Unauthorized)
    );
    assert_eq!(c.create_reward(s("owner"), s("a"), 1, NOW), Ok(1));
    assert_eq!(c.create_reward(s("owner"), s("b"), 1, NOW), Ok(2));
    let r = c.get_reward(2).unwrap();
    assert_eq!(r.title, s("b"));
    assert_eq!(r.winner, None);
    assert_eq!(c.get_reward(3).err(), Some(ArkanaError::NotFound));
}

#[test]
fn allowlist_gates_point_grants() {
    let mut c = setup(10, 5);
    c.register_account(s("alice")).unwrap();
    assert_eq!(c.generate_points(s("other"), s("alice"), 5), Err(ArkanaError::Unauthorized));
    assert_eq!(c.generate_points(s("member"), s("alice"), 5), Ok(5));
    assert_eq!(c.generate_points(s("member"), s("nobody"), 5), Err(ArkanaError::NotFound));
    c.add_membership_nft_contract(s("owner"), s("member")).unwrap();
    c.remove_membership_nft_contract(s("owner"), s("member")).unwrap();
    assert_eq!(c.generate_points(s("member"), s("alice"), 5), Err(ArkanaError::Unauthorized));
    c.remove_membership_nft_contract(s("owner"), s("member")).unwrap();
}

#[test]
fn grant_overflow_is_refused() {
    let mut c = setup(10, 5);
    grant(&mut c, "alice", u64::MAX);
    assert_eq!(c.generate_points(s("member"), s("alice"), 1), Err(ArkanaError::Overflow));
    assert_eq!(c.daily_claim_point(s("alice"), NOW), Err(ArkanaError::Overflow));
    assert_eq!(c.get_user(s("alice")).unwrap().points, u64::MAX);
}

#[test]
fn register_twice_fails() {
    let mut c = setup(10, 5);
    assert_eq!(c.register_account(s("alice")), Ok(()));
    assert_eq!(c.register_account(s("alice")), Err(ArkanaError::AlreadyRegistered));
    let u = c.get_user(s("alice")).unwrap();
    assert_eq!((u.points, u.last_daily_claim, u.last_free_spinwheel), (0, 0, 0));
    assert_eq!(c.get_user(s("bob")).err(), Some(ArkanaError::NotFound));
}

#[test]
fn paid_spin_needs_price() {
    let mut c = setup(10, 5);
    grant(&mut c, "alice", 4);
    assert_eq!(
        c.play_spin_wheel(s("alice"), NOW, false, &seed(0)),
        Err(ArkanaError::InsufficientPoints)
    );
    assert_eq!(c.get_user(s("alice")).unwrap().points, 4);
    assert_eq!(
        c.play_spin_wheel(s("nobody"), NOW, false, &seed(0)),
        Err(ArkanaError::NotFound)
    );
    c.generate_points(s("member"), s("alice"), 1).unwrap();
    // draw 0 lands on the first outcome
    assert_eq!(c.play_spin_wheel(s("alice"), NOW, false, &seed(0)), Ok(1));
    assert_eq!(c.get_user(s("alice")).unwrap().points, 1);
}

#[test]
fn free_spin_once_a_day() {
    let mut c = setup(10, 5);
    c.register_account(s("alice")).unwrap();
    assert_eq!(c.play_spin_wheel(s("alice"), NOW, true, &seed(0)), Ok(1));
    assert_eq!(c.get_user(s("alice")).unwrap().last_free_spinwheel, NOW);
    assert_eq!(
        c.play_spin_wheel(s("alice"), NOW + 1000, true, &seed(0)),
        Err(ArkanaError::CooldownActive(86399))
    );
    assert_eq!(c.play_spin_wheel(s("alice"), NOW + 86_400_000, true, &seed(0)), Ok(1));
    assert_eq!(c.get_user(s("alice")).unwrap().points, 2);
}

#[test]
fn spin_streak_rises_then_resets() {
    let mut c = setup(10, 0);
    c.register_account(s("alice")).unwrap();
    assert_eq!(c.spinwheel_wr(), 0);
    for k in 1..=4u8 {
        assert_eq!(c.play_spin_wheel(s("alice"), NOW, false, &seed(60)), Ok(3));
        assert_eq!(c.spinwheel_wr(), k);
    }
    // total weight at streak 4 is 233; draw 232 reaches only the last outcome
    assert_eq!(c.play_spin_wheel(s("alice"), NOW, false, &seed(232)), Ok(15));
    assert_eq!(c.spinwheel_wr(), 0);
    assert_eq!(c.get_user(s("alice")).unwrap().points, 12 + 15);
}

#[test]
fn spin_streak_saturates() {
    let mut c = setup(10, 0);
    c.register_account(s("alice")).unwrap();
    for _ in 0..300 {
        assert_eq!(c.play_spin_wheel(s("alice"), NOW, false, &seed(0)), Ok(1));
    }
    assert_eq!(c.spinwheel_wr(), 255);
}

#[test]
fn spin_draw_takes_whole_random_number() {
    let mut c = setup(10, 0);
    c.register_account(s("alice")).unwrap();
    // 65536 % 232 == 112, which lands on the second outcome
    assert_eq!(c.play_spin_wheel(s("alice"), NOW, false, &seed(65536)), Ok(3));
    assert_eq!(c.spinwheel_wr(), 1);
    assert_eq!(c.get_user(s("alice")).unwrap().points, 3);
}
