use ifetch::rate_limit::{AdaptiveRateLimiter, PermitStep, Reservation, NANOS_PER_MILLI, NANOS_PER_SEC};
use ifetch::server::rate_limit::{AdaptiveRateLimiter as SimpleLimiter, PaceStep};

const T0: u128 = 1_000 * NANOS_PER_SEC;

fn granted(limiter: &mut AdaptiveRateLimiter, now: u128) -> bool {
    matches!(limiter.wait_for_chapter_permit(now).0, PermitStep::Granted)
}

fn paced(limiter: &mut AdaptiveRateLimiter, now: u128) -> Reservation {
    match limiter.wait_for_chapter_permit(now).0 {
        PermitStep::Paced(r) => r,
        _ => panic!("expected a paced slot"),
    }
}

#[test]
fn burst_is_bounded_then_paced() {
    let mut limiter = AdaptiveRateLimiter::new(T0);
    for _ in 0..10 {
        assert!(granted(&mut limiter, T0));
    }
    let first = paced(&mut limiter, T0);
    let second = paced(&mut limiter, T0);
    assert_eq!(first.wait, 0);
    assert_eq!(second.wait, 200 * NANOS_PER_MILLI);
    assert!(limiter.complete_permit(first, T0));
    assert!(limiter.complete_permit(second, T0 + second.wait));
    let stats = limiter.get_stats();
    assert_eq!(stats.burst_permits_since_reset, 10);
    assert_eq!(stats.total_permits_since_reset, 12);
    assert_eq!(stats.max_burst_achieved, 10);
    assert_eq!(stats.current_delay_ms, 200);
}

#[test]
fn idle_time_restores_the_burst() {
    let mut limiter = AdaptiveRateLimiter::new(T0);
    for _ in 0..10 {
        assert!(granted(&mut limiter, T0));
    }
    assert!(granted(&mut limiter, T0 + 15 * NANOS_PER_SEC));
    assert_eq!(limiter.get_stats().burst_permits_since_reset, 1);
}

#[test]
fn block_pauses_everything_and_voids_reservations() {
    let mut limiter = AdaptiveRateLimiter::new(T0);
    for _ in 0..10 {
        assert!(granted(&mut limiter, T0));
    }
    let r = paced(&mut limiter, T0);
    let outcome = limiter.on_rate_limit_hit(T0 + 1);
    assert_eq!(outcome.cooldown, 30 * NANOS_PER_SEC);
    assert!(outcome.started);
    assert!(!limiter.complete_permit(r, T0 + 2));
    match limiter.wait_for_chapter_permit(T0 + 2) {
        (PermitStep::Cooldown { wait }, lifted) => {
            assert_eq!(wait, 30 * NANOS_PER_SEC - 1);
            assert!(!lifted);
        }
        _ => panic!("expected a cooldown"),
    }
    let again = limiter.on_rate_limit_hit(T0 + 10 * NANOS_PER_SEC);
    assert!(!again.started);
    let stats = limiter.get_stats();
    assert_eq!(stats.total_blocks_hit, 1);
    assert_eq!(stats.current_delay_ms, 350);
    assert_eq!(stats.last_burst_permits_before_block, 10);
    assert_eq!(stats.min_burst_before_block, Some(10));
}

#[test]
fn repeated_blocks_escalate_the_cooldown() {
    let mut limiter = AdaptiveRateLimiter::new(T0);
    let mut now = T0;
    let mut seen: Vec<u128> = vec![];
    for _ in 0..6 {
        let outcome = limiter.on_rate_limit_hit(now);
        seen.push(outcome.cooldown / NANOS_PER_MILLI);
        now += outcome.cooldown;
    }
    assert_eq!(seen, vec![30_000, 45_000, 67_500, 101_250, 151_875, 180_000]);
    assert_eq!(limiter.get_stats().current_delay_ms, 1100);
    assert_eq!(limiter.get_stats().current_cooldown_secs, 180);
}

#[test]
fn retry_after_is_respected() {
    let mut limiter = AdaptiveRateLimiter::new(T0);
    assert!(limiter.can_block(Some(600 * NANOS_PER_SEC), T0));
    let outcome = limiter.on_rate_limit_hit_with_retry(Some(600 * NANOS_PER_SEC), T0);
    assert_eq!(outcome.cooldown, 600 * NANOS_PER_SEC);
    assert!(!limiter.can_block(Some(u128::MAX), T0 + 601 * NANOS_PER_SEC));
    assert!(limiter.can_block(Some(u128::MAX), T0 + 1));
}

#[test]
fn stability_restores_the_baseline() {
    let mut limiter = AdaptiveRateLimiter::new(T0);
    limiter.on_rate_limit_hit(T0);
    limiter.on_rate_limit_hit(T0 + 31 * NANOS_PER_SEC);
    assert_eq!(limiter.get_stats().current_cooldown_secs, 45);
    let later = T0 + 31 * NANOS_PER_SEC + 300 * NANOS_PER_SEC;
    let (step, lifted) = limiter.wait_for_chapter_permit(later);
    assert!(matches!(step, PermitStep::Granted));
    assert!(lifted);
    assert_eq!(limiter.get_stats().current_cooldown_secs, 30);
    assert_eq!(limiter.get_stats().current_delay_ms, 200);
}

#[test]
fn successes_relax_the_delay() {
    let mut limiter = AdaptiveRateLimiter::new(T0);
    limiter.on_rate_limit_hit(T0);
    limiter.on_rate_limit_hit(T0 + 31 * NANOS_PER_SEC);
    assert_eq!(limiter.get_stats().current_delay_ms, 500);
    for _ in 0..20 {
        limiter.on_chapter_success();
    }
    let stats = limiter.get_stats();
    assert_eq!(stats.current_delay_ms, 425);
    assert_eq!(stats.current_cooldown_secs, 35);
    assert_eq!(stats.total_successful_chapters, 20);
}

#[test]
fn abandoned_reservations_are_given_back() {
    let mut limiter = AdaptiveRateLimiter::new(T0);
    for _ in 0..10 {
        assert!(granted(&mut limiter, T0));
    }
    let _ = paced(&mut limiter, T0);
    limiter.abandon_permit();
    assert!(limiter.has_room(T0));
    assert!(granted(&mut limiter, T0 + 16 * NANOS_PER_SEC));
}

#[test]
fn first_permit_after_a_cooldown() {
    let mut limiter = AdaptiveRateLimiter::new(T0);
    limiter.on_rate_limit_hit(T0);
    let end = T0 + 30 * NANOS_PER_SEC;
    match limiter.wait_for_chapter_permit(end - 1) {
        (PermitStep::Cooldown { wait }, lifted) => assert!(wait == 1 && !lifted),
        _ => panic!("expected a cooldown"),
    }
    match limiter.wait_for_chapter_permit(end) {
        (PermitStep::Paced(r), lifted) => {
            assert!(r.wait == 0 && lifted);
            assert!(limiter.complete_permit(r, end));
        }
        _ => panic!("expected a paced slot"),
    }
}

#[test]
fn idle_time_after_a_cooldown_restores_the_burst() {
    let mut limiter = AdaptiveRateLimiter::new(T0);
    limiter.on_rate_limit_hit(T0);
    assert!(granted(&mut limiter, T0 + 45 * NANOS_PER_SEC));
    let mut early = AdaptiveRateLimiter::new(T0);
    early.on_rate_limit_hit(T0);
    assert_eq!(paced(&mut early, T0 + 45 * NANOS_PER_SEC - 1).wait, 0);
}

#[test]
fn short_gaps_do_not_restore_the_burst() {
    let mut limiter = AdaptiveRateLimiter::new(T0);
    for _ in 0..10 {
        assert!(granted(&mut limiter, T0));
    }
    assert_eq!(paced(&mut limiter, T0 + 15 * NANOS_PER_SEC - 1).wait, 0);
    assert_eq!(limiter.get_stats().burst_permits_since_reset, 10);
}

#[test]
fn recovery_keeps_the_observations() {
    let mut limiter = AdaptiveRateLimiter::new(T0);
    for _ in 0..3 {
        assert!(granted(&mut limiter, T0));
    }
    limiter.on_rate_limit_hit(T0);
    let later = T0 + 400 * NANOS_PER_SEC;
    assert!(granted(&mut limiter, later));
    let stats = limiter.get_stats();
    assert_eq!(stats.current_cooldown_secs, 30);
    assert_eq!(stats.current_delay_ms, 200);
    assert_eq!(stats.total_blocks_hit, 1);
    assert_eq!(stats.min_burst_before_block, Some(3));
    assert_eq!(stats.min_total_before_block, Some(3));
    assert_eq!(limiter.on_rate_limit_hit(later + 1).cooldown, 30 * NANOS_PER_SEC);
    let stats = limiter.get_stats();
    assert_eq!(stats.total_blocks_hit, 2);
    assert_eq!(stats.min_burst_before_block, Some(1));
    assert_eq!(stats.last_burst_permits_before_block, 1);
    assert_eq!(stats.last_total_permits_before_block, 1);
}

#[test]
fn simple_limiter() {
    let mut limiter = SimpleLimiter::new(T0);
    for _ in 0..10 {
        assert_eq!(limiter.wait_for_chapter_permit(T0), PaceStep::Start { after: 0 });
    }
    assert_eq!(limiter.wait_for_chapter_permit(T0), PaceStep::Start { after: 200 * NANOS_PER_MILLI });
    assert_eq!(limiter.on_rate_limit_hit(T0), 30 * NANOS_PER_SEC);
    assert_eq!(
        limiter.wait_for_chapter_permit(T0 + NANOS_PER_SEC),
        PaceStep::Ask { after: 29 * NANOS_PER_SEC }
    );
    assert_eq!(limiter.wait_for_chapter_permit(T0 + 30 * NANOS_PER_SEC), PaceStep::Start { after: 0 });
    assert_eq!(limiter.on_rate_limit_hit(T0 + 30 * NANOS_PER_SEC), 45 * NANOS_PER_SEC);
    for _ in 0..20 {
        limiter.on_chapter_success();
    }
    let stats = limiter.get_stats();
    assert_eq!(stats.total_chapters, 20);
    assert_eq!(stats.total_blocks_hit, 2);
    assert_eq!(stats.current_delay_ms, 475);
    assert_eq!(stats.min_burst_before_block, Some(11));
    assert_eq!(stats.current_cooldown_secs, 45);
}

#[test]
fn simple_limiter_grants_every_request() {
    let mut limiter = SimpleLimiter::new(T0);
    let mut now = T0;
    for i in 0..25u128 {
        let after = if i < 10 { 0 } else { 200 * NANOS_PER_MILLI };
        assert_eq!(limiter.wait_for_chapter_permit(now), PaceStep::Start { after });
        now += after;
    }
    limiter.on_rate_limit_hit(now);
    assert_eq!(limiter.get_stats().min_burst_before_block, Some(25));
}
