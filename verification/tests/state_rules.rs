//! The vote, the target reducer and the connection reducer.
use ping_monitor::state::{
    consensus, reduce_connection, reduce_target, DesiredState, LinkState, RecoveryState,
};
use ping_monitor::time::{Duration, Instant};

fn at(secs: u64) -> Instant {
    Instant { ns: (1_000 + secs) * 1_000_000_000 }
}


#[test]
fn consensus_n1_up() {
    assert_eq!(consensus(&[LinkState::Up]), DesiredState::Up);
}

#[test]
fn consensus_n1_down() {
    assert_eq!(consensus(&[LinkState::Down]), DesiredState::Down);
}

#[test]
fn consensus_n1_degraded() {
    assert_eq!(consensus(&[LinkState::Degraded]), DesiredState::Degraded);
}

#[test]
fn consensus_n2_up_up() {
    assert_eq!(consensus(&[LinkState::Up, LinkState::Up]), DesiredState::Up);
}

#[test]
fn consensus_n2_down_up() {
    assert_eq!(
        consensus(&[LinkState::Down, LinkState::Up]),
        DesiredState::Inconclusive
    );
}

#[test]
fn consensus_n2_down_degraded() {
    assert_eq!(
        consensus(&[LinkState::Down, LinkState::Degraded]),
        DesiredState::Degraded
    );
}

#[test]
fn consensus_n2_degraded_degraded() {
    assert_eq!(
        consensus(&[LinkState::Degraded, LinkState::Degraded]),
        DesiredState::Degraded
    );
}

#[test]
fn consensus_n3_two_down() {
    assert_eq!(
        consensus(&[LinkState::Down, LinkState::Down, LinkState::Up]),
        DesiredState::Down
    );
}

#[test]
fn consensus_n3_two_degraded() {
    assert_eq!(
        consensus(&[LinkState::Degraded, LinkState::Degraded, LinkState::Up]),
        DesiredState::Degraded
    );
}

#[test]
fn consensus_n3_two_up() {
    assert_eq!(
        consensus(&[LinkState::Down, LinkState::Up, LinkState::Up]),
        DesiredState::Up
    );
}

#[test]
fn consensus_n4_2down_2degraded() {
    assert_eq!(
        consensus(&[
            LinkState::Down,
            LinkState::Down,
            LinkState::Degraded,
            LinkState::Degraded
        ]),
        DesiredState::Degraded
    );
}

#[test]
fn consensus_n4_2down_2up() {
    assert_eq!(
        consensus(&[
            LinkState::Down,
            LinkState::Down,
            LinkState::Up,
            LinkState::Up
        ]),
        DesiredState::Inconclusive
    );
}

#[test]
fn consensus_n4_3down() {
    assert_eq!(
        consensus(&[
            LinkState::Down,
            LinkState::Down,
            LinkState::Down,
            LinkState::Up
        ]),
        DesiredState::Down
    );
}

#[test]
fn consensus_n5_all_down() {
    assert_eq!(
        consensus(&[
            LinkState::Down,
            LinkState::Down,
            LinkState::Down,
            LinkState::Down,
            LinkState::Down
        ]),
        DesiredState::Down
    );
}

#[test]
fn consensus_empty() {
    assert_eq!(consensus(&[]), DesiredState::Inconclusive);
}

#[test]
fn target_missing_holds() {
    let (s, p) = reduce_target(LinkState::Up, None, None, 3);
    assert_eq!(s, LinkState::Up);
    assert!(p.is_none());
}

#[test]
fn target_up_to_up_clears_pending() {
    let (s, p) = reduce_target(
        LinkState::Up,
        Some(LinkState::Up),
        Some((LinkState::Degraded, 2)),
        3,
    );
    assert_eq!(s, LinkState::Up);
    assert!(p.is_none());
}

#[test]
fn target_up_to_degraded_starts_pending() {
    let (s, p) = reduce_target(LinkState::Up, Some(LinkState::Degraded), None, 3);
    assert_eq!(s, LinkState::Up);
    assert_eq!(p, Some((LinkState::Degraded, 1)));
}

#[test]
fn target_up_to_degraded_confirms_at_hysteresis() {
    let (s, p) = reduce_target(
        LinkState::Up,
        Some(LinkState::Degraded),
        Some((LinkState::Degraded, 2)),
        3,
    );
    assert_eq!(s, LinkState::Degraded);
    assert!(p.is_none());
}

#[test]
fn target_up_to_down_replaces_pending() {
    let (s, p) = reduce_target(
        LinkState::Up,
        Some(LinkState::Down),
        Some((LinkState::Degraded, 1)),
        3,
    );
    assert_eq!(s, LinkState::Up);
    assert_eq!(p, Some((LinkState::Down, 1)));
}

#[test]
fn target_degraded_to_up_immediate() {
    let (s, p) = reduce_target(
        LinkState::Degraded,
        Some(LinkState::Up),
        Some((LinkState::Down, 2)),
        3,
    );
    assert_eq!(s, LinkState::Up);
    assert!(p.is_none());
}

#[test]
fn target_degraded_to_degraded_clears() {
    let (s, p) = reduce_target(
        LinkState::Degraded,
        Some(LinkState::Degraded),
        Some((LinkState::Down, 1)),
        3,
    );
    assert_eq!(s, LinkState::Degraded);
    assert!(p.is_none());
}

#[test]
fn target_degraded_to_down_confirms() {
    let (s, p) = reduce_target(
        LinkState::Degraded,
        Some(LinkState::Down),
        Some((LinkState::Down, 2)),
        3,
    );
    assert_eq!(s, LinkState::Down);
    assert!(p.is_none());
}

#[test]
fn target_down_to_up_immediate() {
    let (s, p) = reduce_target(LinkState::Down, Some(LinkState::Up), None, 3);
    assert_eq!(s, LinkState::Up);
    assert!(p.is_none());
}

#[test]
fn target_down_to_degraded_immediate() {
    let (s, p) = reduce_target(LinkState::Down, Some(LinkState::Degraded), None, 3);
    assert_eq!(s, LinkState::Degraded);
    assert!(p.is_none());
}

#[test]
fn target_bad_bad_good_no_confirm() {
    let h = 3;
    let (s, p) = reduce_target(LinkState::Up, Some(LinkState::Degraded), None, h);
    assert_eq!(s, LinkState::Up);
    let (s, p) = reduce_target(s, Some(LinkState::Degraded), p, h);
    assert_eq!(s, LinkState::Up);
    let (s, p) = reduce_target(s, Some(LinkState::Up), p, h);
    assert_eq!(s, LinkState::Up);
    assert!(p.is_none());
}

#[test]
fn conn_up_to_down_immediate() {
    let mut r = RecoveryState::new();
    let now = at(0);
    let s = reduce_connection(
        LinkState::Up,
        DesiredState::Down,
        &mut r,
        Duration::from_secs(15),
        now,
    );
    assert_eq!(s, LinkState::Down);
}

#[test]
fn conn_up_to_degraded_immediate() {
    let mut r = RecoveryState::new();
    let now = at(0);
    let s = reduce_connection(
        LinkState::Up,
        DesiredState::Degraded,
        &mut r,
        Duration::from_secs(15),
        now,
    );
    assert_eq!(s, LinkState::Degraded);
}

#[test]
fn conn_up_to_inconclusive_holds() {
    let mut r = RecoveryState::new();
    let now = at(0);
    let s = reduce_connection(
        LinkState::Up,
        DesiredState::Inconclusive,
        &mut r,
        Duration::from_secs(15),
        now,
    );
    assert_eq!(s, LinkState::Up);
}

#[test]
fn conn_degraded_to_down() {
    let mut r = RecoveryState::new();
    let now = at(0);
    let s = reduce_connection(
        LinkState::Degraded,
        DesiredState::Down,
        &mut r,
        Duration::from_secs(15),
        now,
    );
    assert_eq!(s, LinkState::Down);
}

#[test]
fn conn_degraded_up_recovery_dwell() {
    let mut r = RecoveryState::new();
    let now = at(0);
    // Start recovery
    let s = reduce_connection(
        LinkState::Degraded,
        DesiredState::Up,
        &mut r,
        Duration::from_secs(15),
        now,
    );
    assert_eq!(s, LinkState::Degraded);
    // Not enough time yet
    let s = reduce_connection(
        LinkState::Degraded,
        DesiredState::Up,
        &mut r,
        Duration::from_secs(15),
        at(10),
    );
    assert_eq!(s, LinkState::Degraded);
    // Enough time
    let s = reduce_connection(
        LinkState::Degraded,
        DesiredState::Up,
        &mut r,
        Duration::from_secs(15),
        at(16),
    );
    assert_eq!(s, LinkState::Up);
}

#[test]
fn conn_degraded_equal_cancels_recovery() {
    let mut r = RecoveryState::new();
    let now = at(0);
    let _ = reduce_connection(
        LinkState::Degraded,
        DesiredState::Up,
        &mut r,
        Duration::from_secs(15),
        now,
    );
    // Equal cancels
    let _ = reduce_connection(
        LinkState::Degraded,
        DesiredState::Degraded,
        &mut r,
        Duration::from_secs(15),
        at(5),
    );
    // Should not complete recovery even with enough total time
    let s = reduce_connection(
        LinkState::Degraded,
        DesiredState::Up,
        &mut r,
        Duration::from_secs(15),
        at(20),
    );
    // Since recovery was cancelled and restarted, need another 15s
    assert_eq!(s, LinkState::Degraded);
}

#[test]
fn conn_degraded_inconclusive_pauses() {
    let mut r = RecoveryState::new();
    let now = at(0);
    // Start recovery
    let _ = reduce_connection(
        LinkState::Degraded,
        DesiredState::Up,
        &mut r,
        Duration::from_secs(15),
        now,
    );
    // Accumulate 10s
    let _ = reduce_connection(
        LinkState::Degraded,
        DesiredState::Up,
        &mut r,
        Duration::from_secs(15),
        at(10),
    );
    assert_eq!(
        r.total(at(10)),
        Duration::from_secs(10)
    );
    // Pause
    let _ = reduce_connection(
        LinkState::Degraded,
        DesiredState::Inconclusive,
        &mut r,
        Duration::from_secs(15),
        at(10),
    );
    // Wait 60s — accumulated should NOT advance
    let _ = reduce_connection(
        LinkState::Degraded,
        DesiredState::Inconclusive,
        &mut r,
        Duration::from_secs(15),
        at(70),
    );
    assert_eq!(
        r.total(at(70)),
        Duration::from_secs(10),
        "paused recovery should not advance"
    );
    // Resume
    let s = reduce_connection(
        LinkState::Degraded,
        DesiredState::Up,
        &mut r,
        Duration::from_secs(15),
        at(70),
    );
    assert_eq!(s, LinkState::Degraded);
    // 6 more seconds → total 16s >= 15s
    let s = reduce_connection(
        LinkState::Degraded,
        DesiredState::Up,
        &mut r,
        Duration::from_secs(15),
        at(76),
    );
    assert_eq!(s, LinkState::Up, "true pause: 10s + 6s = 16s >= 15s");
}

#[test]
fn conn_down_to_degraded_immediate() {
    let mut r = RecoveryState::new();
    let now = at(0);
    let s = reduce_connection(
        LinkState::Down,
        DesiredState::Degraded,
        &mut r,
        Duration::from_secs(15),
        now,
    );
    assert_eq!(s, LinkState::Degraded);
}

#[test]
fn conn_down_to_up_goes_to_degraded() {
    let mut r = RecoveryState::new();
    let now = at(0);
    let s = reduce_connection(
        LinkState::Down,
        DesiredState::Up,
        &mut r,
        Duration::from_secs(15),
        now,
    );
    assert_eq!(s, LinkState::Degraded, "Down+Up desired → Degraded");
}

#[test]
fn conn_down_inconclusive_holds() {
    let mut r = RecoveryState::new();
    let now = at(0);
    let s = reduce_connection(
        LinkState::Down,
        DesiredState::Inconclusive,
        &mut r,
        Duration::from_secs(15),
        now,
    );
    assert_eq!(s, LinkState::Down);
}

#[test]
fn conn_minority_blip_doesnt_reset_recovery() {
    let mut r = RecoveryState::new();
    let now = at(0);
    // Degraded, recovering toward Up
    let _ = reduce_connection(
        LinkState::Degraded,
        DesiredState::Up,
        &mut r,
        Duration::from_secs(15),
        now,
    );
    // Accumulate 10s
    let _ = reduce_connection(
        LinkState::Degraded,
        DesiredState::Up,
        &mut r,
        Duration::from_secs(15),
        at(10),
    );
    // Inconclusive (minority blip) — pauses, doesn't cancel
    let _ = reduce_connection(
        LinkState::Degraded,
        DesiredState::Inconclusive,
        &mut r,
        Duration::from_secs(15),
        at(10),
    );
    // Back to Up — resume
    let _ = reduce_connection(
        LinkState::Degraded,
        DesiredState::Up,
        &mut r,
        Duration::from_secs(15),
        at(12),
    );
    // 10s accumulated + 1s active = 11s < 15s — still Degraded
    let s = reduce_connection(
        LinkState::Degraded,
        DesiredState::Up,
        &mut r,
        Duration::from_secs(15),
        at(13),
    );
    assert_eq!(s, LinkState::Degraded);
    // 10s accumulated + 5s active = 15s → Up
    let s = reduce_connection(
        LinkState::Degraded,
        DesiredState::Up,
        &mut r,
        Duration::from_secs(15),
        at(17),
    );
    assert_eq!(s, LinkState::Up);
}
