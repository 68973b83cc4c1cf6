use std::time::Duration;

use cntryl_tools::validate_tests::{deadline_expired, parse_duration, parse_number, timeout_error};

#[test]
fn should_parse_supported_timeout_units() {
    // Arrange
    let values = [
        ("250ms", Duration::from_millis(250)),
        ("3s", Duration::from_secs(3)),
        ("2m", Duration::from_secs(120)),
        ("9", Duration::from_secs(9)),
    ];
    let expected = values.map(|(_, expected)| Ok(expected));

    // Act
    let parsed = values.map(|(value, _)| parse_duration(value).map(Duration::from_millis));

    // Assert
    assert_eq!(parsed, expected);
}

#[test]
fn should_reject_malformed_durations() {
    for value in ["", "s", "ms", "1.5s", "-1s", "1 s", "+", "++1", "1h"] {
        assert_eq!(
            parse_duration(value),
            Err(format!(
                "invalid duration `{value}`; use an integer with ms, s, or m"
            ))
        );
    }
}

#[test]
fn should_reject_durations_that_do_not_fit() {
    assert_eq!(
        parse_duration("18446744073709551615ms"),
        Ok(18446744073709551615)
    );
    assert_eq!(
        parse_duration("18446744073709551615s"),
        Err("duration `18446744073709551615s` is too large".to_string())
    );
    assert_eq!(
        parse_duration("18446744073709551616ms"),
        Err(
            "invalid duration `18446744073709551616ms`; use an integer with ms, s, or m"
                .to_string()
        )
    );
}

#[test]
fn should_parse_numbers_as_the_standard_library_does() {
    for value in ["0", "+7", "007", "-0", "", "+", "12a", "18446744073709551616"] {
        assert_eq!(parse_number(value), value.parse::<u64>().ok());
    }
}

#[test]
fn should_expire_once_the_limit_is_reached() {
    assert!(!deadline_expired(9, Some(10)));
    assert!(deadline_expired(10, Some(10)));
    assert!(!deadline_expired(u64::MAX, None));
}

#[test]
fn should_name_the_limit_that_was_exceeded() {
    assert_eq!(
        timeout_error(Some(1_500)).message,
        "test analysis exceeded its explicit 1.5s deadline"
    );
}
