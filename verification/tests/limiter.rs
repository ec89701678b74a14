use vault_gateway::clock::{reading, Clock};
use vault_gateway::limiter::{LimitError, LimitWindow, Limiter, TIMEOUT_NANOS};

const SECOND: u64 = 1_000_000_000;

fn token(name: &str) -> String {
    name.to_string()
}

#[test]
fn window_lasts_sixty_seconds() {
    assert_eq!(TIMEOUT_NANOS, 60 * SECOND);
}

#[test]
fn new_window_is_empty() {
    let window = LimitWindow::new(17);
    assert_eq!(window.first_request, 17);
    assert_eq!(window.request_count, 0);
}

#[test]
fn limit_requests_are_admitted_and_the_next_is_rejected() {
    for limit in [1usize, 2, 3, 60, 1200] {
        let mut limiter = Limiter::new(limit);
        for k in 0..limit {
            assert_eq!(limiter.validate_request_at(token("A"), 5 + k as u64), Ok(()));
        }
        let rejected = limiter.validate_request_at(token("A"), 5 + limit as u64);
        assert_eq!(rejected, Err(LimitError::Timeout(TIMEOUT_NANOS - limit as u64)));
    }
}

#[test]
fn retry_is_what_is_left_of_the_window() {
    let mut limiter = Limiter::new(1);
    assert_eq!(limiter.validate_request_at(token("A"), 10 * SECOND), Ok(()));
    assert_eq!(
        limiter.validate_request_at(token("A"), 10 * SECOND),
        Err(LimitError::Timeout(60 * SECOND))
    );
    assert_eq!(
        limiter.validate_request_at(token("A"), 25 * SECOND),
        Err(LimitError::Timeout(45 * SECOND))
    );
    assert_eq!(
        limiter.validate_request_at(token("A"), 70 * SECOND - 1),
        Err(LimitError::Timeout(1))
    );
}

#[test]
fn retry_does_not_grow_while_the_window_lasts() {
    let mut limiter = Limiter::new(2);
    assert_eq!(limiter.validate_request_at(token("A"), 0), Ok(()));
    assert_eq!(limiter.validate_request_at(token("A"), 1), Ok(()));
    let mut last: u64 = u64::MAX;
    for step in 0..60u64 {
        match limiter.validate_request_at(token("A"), 2 + step * SECOND) {
            Err(LimitError::Timeout(retry)) => {
                assert!(retry > 0);
                assert!(retry <= last);
                last = retry;
            }
            Ok(()) => panic!("admitted within the window"),
        }
    }
}

#[test]
fn window_is_reset_when_sixty_seconds_have_passed() {
    let mut limiter = Limiter::new(1);
    assert_eq!(limiter.validate_request_at(token("A"), 7), Ok(()));
    assert_eq!(
        limiter.validate_request_at(token("A"), 7 + TIMEOUT_NANOS - 1),
        Err(LimitError::Timeout(1))
    );
    assert_eq!(limiter.validate_request_at(token("A"), 7 + TIMEOUT_NANOS), Ok(()));
    assert_eq!(
        limiter.validate_request_at(token("A"), 7 + TIMEOUT_NANOS),
        Err(LimitError::Timeout(TIMEOUT_NANOS))
    );
}

#[test]
fn fresh_window_counts_the_request_that_opened_it() {
    let mut limiter = Limiter::new(3);
    for k in 0..3u64 {
        assert_eq!(limiter.validate_request_at(token("A"), k), Ok(()));
    }
    let start: u64 = 100 * SECOND;
    assert_eq!(limiter.validate_request_at(token("A"), start), Ok(()));
    assert_eq!(limiter.validate_request_at(token("A"), start + 1), Ok(()));
    assert_eq!(limiter.validate_request_at(token("A"), start + 2), Ok(()));
    assert_eq!(
        limiter.validate_request_at(token("A"), start + 3),
        Err(LimitError::Timeout(TIMEOUT_NANOS - 3))
    );
}

#[test]
fn waiting_as_long_as_told_is_enough() {
    let mut limiter = Limiter::new(3);
    for k in 0..3u64 {
        assert_eq!(limiter.validate_request_at(token("A"), 4 * SECOND + k), Ok(()));
    }
    let now: u64 = 31 * SECOND;
    match limiter.validate_request_at(token("A"), now) {
        Err(LimitError::Timeout(retry)) => {
            assert_eq!(retry, 33 * SECOND);
            assert_eq!(limiter.validate_request_at(token("A"), now + retry), Ok(()));
            assert_eq!(limiter.validate_request_at(token("A"), now + retry), Ok(()));
            assert_eq!(limiter.validate_request_at(token("A"), now + retry), Ok(()));
            assert_eq!(
                limiter.validate_request_at(token("A"), now + retry),
                Err(LimitError::Timeout(TIMEOUT_NANOS))
            );
        }
        Ok(()) => panic!("Not properly rate limited!"),
    }
}

#[test]
fn twice_the_limit_passes_across_a_window_boundary() {
    let mut limiter = Limiter::new(3);
    assert_eq!(limiter.validate_request_at(token("A"), 0), Ok(()));
    let late: u64 = TIMEOUT_NANOS - 3;
    assert_eq!(limiter.validate_request_at(token("A"), late), Ok(()));
    assert_eq!(limiter.validate_request_at(token("A"), late + 1), Ok(()));
    assert!(limiter.validate_request_at(token("A"), late + 2).is_err());
    for k in 0..3u64 {
        assert_eq!(limiter.validate_request_at(token("A"), TIMEOUT_NANOS + k), Ok(()));
    }
    assert!(limiter.validate_request_at(token("A"), TIMEOUT_NANOS + 3).is_err());
}

#[test]
fn limit_of_nothing_rejects_a_new_client() {
    let mut limiter = Limiter::new(0);
    assert_eq!(
        limiter.validate_request_at(token("A"), 9),
        Err(LimitError::Timeout(TIMEOUT_NANOS))
    );
    assert_eq!(
        limiter.validate_request_at(token("A"), 9 + SECOND),
        Err(LimitError::Timeout(59 * SECOND))
    );
}

#[test]
fn limit_of_nothing_still_admits_the_request_that_resets_a_window() {
    let mut limiter = Limiter::new(0);
    assert!(limiter.validate_request_at(token("A"), 9).is_err());
    assert_eq!(limiter.validate_request_at(token("A"), 9 + TIMEOUT_NANOS), Ok(()));
    assert_eq!(
        limiter.validate_request_at(token("A"), 9 + TIMEOUT_NANOS),
        Err(LimitError::Timeout(TIMEOUT_NANOS))
    );
}

#[test]
fn time_before_the_window_counts_as_its_start() {
    let mut limiter = Limiter::new(1);
    assert_eq!(limiter.validate_request_at(token("A"), 100 * SECOND), Ok(()));
    assert_eq!(
        limiter.validate_request_at(token("A"), 40 * SECOND),
        Err(LimitError::Timeout(TIMEOUT_NANOS))
    );
    assert_eq!(limiter.validate_request_at(token("A"), 0), Err(LimitError::Timeout(TIMEOUT_NANOS)));
}

#[test]
fn largest_times_do_not_overflow() {
    let mut limiter = Limiter::new(1);
    assert_eq!(limiter.validate_request_at(token("A"), 0), Ok(()));
    assert_eq!(limiter.validate_request_at(token("A"), u64::MAX), Ok(()));
    assert_eq!(
        limiter.validate_request_at(token("A"), u64::MAX),
        Err(LimitError::Timeout(TIMEOUT_NANOS))
    );
    let mut unlimited = Limiter::new(usize::MAX);
    assert_eq!(unlimited.validate_request_at(token("A"), u64::MAX), Ok(()));
}

#[test]
fn identities_do_not_share_a_window() {
    let mut limiter = Limiter::new(2);
    assert_eq!(limiter.validate_request_at(token("A"), 0), Ok(()));
    assert_eq!(limiter.validate_request_at(token("A"), 1), Ok(()));
    assert!(limiter.validate_request_at(token("A"), 2).is_err());
    assert_eq!(limiter.validate_request_at(token("B"), 3), Ok(()));
    assert_eq!(limiter.validate_request_at(token("B"), 4), Ok(()));
    assert_eq!(
        limiter.validate_request_at(token("B"), 5),
        Err(LimitError::Timeout(TIMEOUT_NANOS - 2))
    );
    assert_eq!(
        limiter.validate_request_at(token("A"), 5),
        Err(LimitError::Timeout(TIMEOUT_NANOS - 5))
    );
}

#[test]
fn identities_are_told_apart_by_every_character() {
    let mut limiter = Limiter::new(1);
    assert_eq!(limiter.validate_request_at(token("AUTH_TOKEN_01"), 0), Ok(()));
    assert_eq!(limiter.validate_request_at(token("AUTH_TOKEN_02"), 0), Ok(()));
    assert_eq!(limiter.validate_request_at(token("auth_token_01"), 0), Ok(()));
    assert_eq!(limiter.validate_request_at(token(""), 0), Ok(()));
    assert_eq!(limiter.validate_request_at(token("AUTH_TOKEN_01 "), 0), Ok(()));
    assert!(limiter.validate_request_at(token("AUTH_TOKEN_01"), 0).is_err());
    assert!(limiter.validate_request_at(token(""), 0).is_err());
}

#[test]
fn limiter_reads_its_own_clock() {
    let mut limiter = Limiter::new(2);
    assert_eq!(limiter.validate_request(token("A")), Ok(()));
    assert_eq!(limiter.validate_request(token("A")), Ok(()));
    match limiter.validate_request(token("A")) {
        Err(LimitError::Timeout(retry)) => {
            assert!(retry > 59 * SECOND);
            assert!(retry <= TIMEOUT_NANOS);
        }
        Ok(()) => panic!("Not properly rate limited!"),
    }
    assert_eq!(limiter.validate_request(token("B")), Ok(()));
}

#[test]
fn clock_does_not_run_backwards() {
    let mut clock = Clock::new();
    let mut last: u64 = clock.now();
    for _ in 0..1000 {
        let next: u64 = clock.now();
        assert!(last <= next);
        last = next;
    }
    assert!(last < 60 * SECOND);
}

#[test]
fn reading_is_the_time_that_has_passed() {
    assert_eq!(reading(0, 0), 0);
    assert_eq!(reading(0, 1), 1);
    assert_eq!(reading(5, 7), 7);
    assert_eq!(reading(5, 60 * SECOND as u128), 60 * SECOND);
    assert_eq!(reading(0, u64::MAX as u128), u64::MAX);
}

#[test]
fn reading_is_never_less_than_the_one_before() {
    assert_eq!(reading(5, 3), 5);
    assert_eq!(reading(5, 5), 5);
    assert_eq!(reading(u64::MAX, 0), u64::MAX);
    assert_eq!(reading(60 * SECOND, 59 * SECOND as u128), 60 * SECOND);
}

#[test]
fn reading_is_held_at_the_largest_time() {
    assert_eq!(reading(0, u64::MAX as u128 + 1), u64::MAX);
    assert_eq!(reading(7, u128::MAX), u64::MAX);
    assert_eq!(reading(u64::MAX, u128::MAX), u64::MAX);
}
