use arkana_core::milli_to_seconds;
use arkana_core::random::get_random_number;
use arkana_core::reward::Reward;
use arkana_core::user::{check_cooldown, credit, debit, User};
use arkana_core::wheel::{select_payout, spin_outcome, update_streak};

#[test]
fn milliseconds_truncate_to_seconds() {
    assert_eq!(milli_to_seconds(1999), 1);
    assert_eq!(milli_to_seconds(86_400_000), 86_400);
    assert_eq!(milli_to_seconds(999), 0);
}

#[test]
fn random_number_is_little_endian_of_rotated_seed() {
    let seed = vec![1u8, 2, 3, 4, 5];
    assert_eq!(get_random_number(&seed, 0), 0x0403_0201);
    assert_eq!(get_random_number(&seed, 1), 0x0504_0302);
    assert_eq!(get_random_number(&seed, 3), 0x0201_0504);
    assert_eq!(get_random_number(&seed, 5), 0x0403_0201);
    assert_eq!(get_random_number(&vec![255u8; 4], 2), u32::MAX);
}

#[test]
fn wheel_boundary_goes_to_lower_outcome() {
    // cumulative weights at streak 0: 50, 130, 200, 220, 230, 232
    assert_eq!(select_payout(0, 0), 1);
    assert_eq!(select_payout(0, 50), 1);
    assert_eq!(select_payout(0, 51), 3);
    assert_eq!(select_payout(0, 130), 3);
    assert_eq!(select_payout(0, 131), 7);
    assert_eq!(select_payout(0, 200), 7);
    assert_eq!(select_payout(0, 201), 9);
    assert_eq!(select_payout(0, 221), 12);
    assert_eq!(select_payout(0, 231), 15);
}

#[test]
fn wheel_weights_follow_streak() {
    // streak 100: weights 50, 80, 70, 50, 30, 12; cumulative ..., 250, 280, 292
    assert_eq!(select_payout(100, 250), 9);
    assert_eq!(select_payout(100, 251), 12);
    assert_eq!(select_payout(100, 281), 15);
    assert_eq!(select_payout(100, 291), 15);
}

#[test]
fn wheel_draws_whole_number_modulo_total() {
    // total weight at streak 0 is 232
    // 65536 % 232 == 112, inside (50, 130]
    assert_eq!(spin_outcome(0, 65536), 3);
    // 65586 % 232 == 162, inside (130, 200]
    assert_eq!(spin_outcome(0, 65536 + 50), 7);
    // 232 % 232 == 0
    assert_eq!(spin_outcome(0, 232), 1);
    assert_eq!(spin_outcome(0, 231), 15);
    // u32::MAX % 232 == 15
    assert_eq!(spin_outcome(0, u32::MAX), 1);
}

#[test]
fn streak_updates() {
    assert_eq!(update_streak(0, 1), 1);
    assert_eq!(update_streak(7, 3), 8);
    assert_eq!(update_streak(7, 7), 0);
    assert_eq!(update_streak(255, 3), 255);
    assert_eq!(update_streak(255, 15), 0);
}

#[test]
fn cooldown_checks() {
    assert_eq!(check_cooldown(0, 86_400_000), Ok(()));
    assert_eq!(check_cooldown(1000, 2000), Err(86_399));
    assert_eq!(check_cooldown(5000, 5000), Err(86_400));
    assert_eq!(check_cooldown(5000, 2000), Err(86_403));
}

#[test]
fn ledger_credit_and_debit() {
    assert_eq!(credit(5, 7), Some(12));
    assert_eq!(credit(u64::MAX, 1), None);
    assert_eq!(debit(5, 5), Some(0));
    assert_eq!(debit(5, 6), None);
    assert_eq!(User::new(), User { points: 0, last_daily_claim: 0, last_free_spinwheel: 0 });
}

#[test]
fn reward_ranges_and_draw() {
    let mut r = Reward::new("t".to_string(), 3, 100);
    r.add_tickets("a".to_string(), 2);
    r.add_tickets("b".to_string(), 5);
    assert_eq!(r.total_tickets, 7);
    assert_eq!(r.floor_index(0), 0);
    assert_eq!(r.floor_index(1), 0);
    assert_eq!(r.floor_index(2), 1);
    assert_eq!(r.floor_index(6), 1);
    assert_eq!(r.draw_winner(8), "a".to_string());
    assert_eq!(r.winner, Some("a".to_string()));
    assert!(r.tickets.is_empty());
}
