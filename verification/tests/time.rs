use gitea_ci_autoscaler::time::{Duration, Span, Timestamp};

fn t(secs: i64, nanos: u32) -> Timestamp {
    Timestamp { secs, nanos }
}

fn chrono_of(at: Timestamp) -> chrono::DateTime<chrono::Utc> {
    chrono::DateTime::from_timestamp(at.secs, at.nanos).unwrap()
}

#[test]
fn spans_between_instants() {
    assert_eq!(t(10, 0).since(t(4, 0)), Span { secs: 6, nanos: 0 });
    assert_eq!(
        t(10, 1).since(t(4, 2)),
        Span {
            secs: 5,
            nanos: 999_999_999
        }
    );
    assert_eq!(
        t(4, 2).since(t(10, 1)),
        Span {
            secs: -5,
            nanos: -999_999_999
        }
    );
}

#[test]
fn whole_seconds_and_minutes() {
    assert_eq!(t(125, 0).seconds_since(t(0, 1)), 124);
    assert_eq!(t(0, 1).seconds_since(t(125, 0)), -124);
    assert_eq!(t(125, 0).minutes_since(t(0, 0)), 2);
    assert_eq!(t(0, 0).minutes_since(t(125, 0)), -2);
    assert_eq!(t(59, 999_999_999).minutes_since(t(0, 0)), 0);
}

#[test]
fn leap_seconds_are_counted_as_chrono_counts_them() {
    let leap = t(1_483_228_799, 1_500_000_000);
    for other in [
        t(1_483_228_790, 0),
        t(1_483_228_799, 0),
        t(1_483_228_799, 700_000_000),
        t(1_483_228_800, 0),
        t(1_483_228_800, 250_000_000),
        t(1_483_300_000, 0),
        t(1_400_000_000, 0),
    ] {
        for (later, earlier) in [(leap, other), (other, leap)] {
            let delta = chrono_of(later) - chrono_of(earlier);
            let span = later.since(earlier);
            assert_eq!(span.secs, delta.num_seconds());
            assert_eq!(span.nanos, delta.subsec_nanos());
            assert_eq!(later.minutes_since(earlier), delta.num_minutes());
        }
    }
}

#[test]
fn the_first_and_the_last_instant() {
    let first = t(-8_334_601_228_800, 0);
    let last = t(8_210_266_876_799, 999_999_999);
    assert_eq!(chrono_of(first), chrono::DateTime::<chrono::Utc>::MIN_UTC);
    assert_eq!(chrono_of(last), chrono::DateTime::<chrono::Utc>::MAX_UTC);
    assert_eq!(last.seconds_since(first), 16_544_868_105_599);
}

#[test]
fn now_is_what_the_clock_says() {
    let before = chrono::Utc::now();
    let now = chrono_of(Timestamp::now());
    let after = chrono::Utc::now();
    assert!(before <= now && now <= after);
}

#[test]
fn spans_compare_by_length() {
    let five = Duration::from_secs(5).to_span().unwrap();
    assert_eq!(five, Span { secs: 5, nanos: 0 });
    assert!(t(5, 0).since(t(0, 0)).at_least(five));
    assert!(!t(4, 999_999_999).since(t(0, 0)).at_least(five));
    assert!(!t(0, 0).since(t(9, 0)).at_least(five));
}

#[test]
fn timeouts_that_are_too_long_have_no_span() {
    assert!(Duration::from_secs(9_223_372_036_854_775).to_span().is_some());
    assert!(Duration::from_secs(9_223_372_036_854_776).to_span().is_none());
    assert!(Duration::from_secs(u64::MAX).to_span().is_none());
}

#[test]
fn what_is_left_of_the_poll_interval() {
    let interval = Duration::from_secs(5);
    assert_eq!(
        interval.remaining_after(Duration {
            secs: 1,
            nanos: 250_000_000
        }),
        Some(Duration {
            secs: 3,
            nanos: 750_000_000
        })
    );
    assert_eq!(
        interval.remaining_after(Duration::from_secs(0)),
        Some(interval)
    );
    assert_eq!(interval.remaining_after(interval), None);
    assert_eq!(interval.remaining_after(Duration::from_secs(6)), None);
}

#[test]
fn valid_instants_are_those_that_chrono_holds() {
    for at in [
        t(0, 0),
        t(59, 1_000_000_000),
        t(58, 1_000_000_000),
        t(-1, 1_999_999_999),
        t(-2, 1_999_999_999),
        t(59, 2_000_000_000),
        t(0, 999_999_999),
        t(-8_334_601_228_800, 0),
        t(-8_334_601_228_801, 0),
        t(8_210_266_876_799, 0),
        t(8_210_266_876_800, 0),
        t(i64::MIN, 0),
        t(i64::MAX, u32::MAX),
    ] {
        let held = chrono::DateTime::from_timestamp(at.secs, at.nanos).is_some();
        assert_eq!(at.is_valid(), held, "{:?}", at);
    }
}
