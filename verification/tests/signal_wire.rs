use failover::signal::Signal;
use failover::signal::fail_message;
use failover::signal::parse_count;
use failover::signal::parse_signal;
use failover::signal::success_message;
use failover::signal::u64_to_dec;

#[test]
fn parses_success_signal() {
    assert_eq!(parse_signal(b"success:42"), Some(Signal::Success(42)));
    assert_eq!(parse_signal(b"success:0"), Some(Signal::Success(0)));
}

#[test]
fn parses_fail_signal() {
    assert_eq!(parse_signal(b"fail:5"), Some(Signal::Fail(5)));
    assert_eq!(
        parse_signal(b"fail:18446744073709551615"),
        Some(Signal::Fail(u64::MAX))
    );
}

#[test]
fn unknown_status_reads_as_success() {
    // The monitor's handler treats every status other than `fail` as a
    // successful heartbeat, including an empty one.
    assert_eq!(parse_signal(b"anything:7"), Some(Signal::Success(7)));
    assert_eq!(parse_signal(b":7"), Some(Signal::Success(7)));
}

#[test]
fn rejects_wrong_field_count() {
    // Zero colons, and two or more colons.
    assert_eq!(parse_signal(b"success"), None);
    assert_eq!(parse_signal(b""), None);
    assert_eq!(parse_signal(b"a:b:c"), None);
    assert_eq!(parse_signal(b"success:1:2"), None);
    assert_eq!(parse_signal(b"::"), None);
}

#[test]
fn rejects_bad_count() {
    assert_eq!(parse_signal(b"success:"), None);
    assert_eq!(parse_signal(b"success:abc"), None);
    assert_eq!(parse_signal(b"success:12x"), None);
    assert_eq!(parse_signal(b"fail:-1"), None);
    assert_eq!(parse_signal(b"fail: 1"), None);
}

#[test]
fn rejects_count_beyond_counter_width() {
    assert_eq!(
        parse_signal(b"success:18446744073709551615"),
        Some(Signal::Success(u64::MAX))
    );
    assert_eq!(parse_signal(b"success:18446744073709551616"), None);
}

#[test]
fn count_field_alone() {
    assert_eq!(parse_count(b"0"), Some(0));
    assert_eq!(parse_count(b"007"), Some(7));
    assert_eq!(parse_count(b"18446744073709551615"), Some(u64::MAX));
    assert_eq!(parse_count(b"18446744073709551616"), None);
    assert_eq!(parse_count(b""), None);
    assert_eq!(parse_count(b"1 2"), None);
}

#[test]
fn formats_decimal() {
    assert_eq!(u64_to_dec(0), b"0".to_vec());
    assert_eq!(u64_to_dec(10), b"10".to_vec());
    assert_eq!(u64_to_dec(907), b"907".to_vec());
    assert_eq!(u64_to_dec(u64::MAX), b"18446744073709551615".to_vec());
}

#[test]
fn messages_round_trip() {
    let s = success_message(123);
    assert_eq!(s, b"success:123".to_vec());
    assert_eq!(parse_signal(&s), Some(Signal::Success(123)));

    let f = fail_message(0);
    assert_eq!(f, b"fail:0".to_vec());
    assert_eq!(parse_signal(&f), Some(Signal::Fail(0)));

    let m = success_message(u64::MAX);
    assert_eq!(parse_signal(&m), Some(Signal::Success(u64::MAX)));
}
