//! Power states and the overcommit mode.

use procmetrics::utils::{
    is_device_awake, is_strict_overcommit, overcommit_mode, OvercommitCache, PowerState,
};

fn reported(s: &str) -> PowerState {
    PowerState::Reported(s.to_string())
}

#[test]
fn a_device_is_awake_in_d0_or_unknown() {
    assert!(is_device_awake(&reported("D0\n")));
    assert!(is_device_awake(&reported("D0")));
    assert!(is_device_awake(&reported(" unknown \n")));
    assert!(!is_device_awake(&reported("D3cold\n")));
    assert!(!is_device_awake(&reported("D3hot\n")));
    assert!(!is_device_awake(&reported("d0\n")));
    assert!(!is_device_awake(&reported("")));
}

#[test]
fn a_device_without_power_state_is_not_awake() {
    assert!(!is_device_awake(&PowerState::Unsupported));
}

#[test]
fn a_device_with_an_unreadable_power_state_is_awake() {
    assert!(is_device_awake(&PowerState::Unreadable));
}

fn mode(contents: Option<&str>) -> u8 {
    overcommit_mode(&mut OvercommitCache::new(), contents)
}

fn is_strict(contents: Option<&str>) -> bool {
    is_strict_overcommit(&mut OvercommitCache::new(), contents)
}

#[test]
fn overcommit_mode_is_a_small_number() {
    assert_eq!(mode(Some("0\n")), 0);
    assert_eq!(mode(Some("1\n")), 1);
    assert_eq!(mode(Some(" 2 ")), 2);
    assert_eq!(mode(Some("255")), 255);
}

#[test]
fn overcommit_mode_defaults_to_zero() {
    assert_eq!(mode(None), 0);
    assert_eq!(mode(Some("")), 0);
    assert_eq!(mode(Some("256")), 0);
    assert_eq!(mode(Some("2x")), 0);
    assert_eq!(mode(Some("-1")), 0);
}

#[test]
fn only_mode_two_is_strict() {
    assert!(is_strict(Some("2\n")));
    assert!(!is_strict(Some("1\n")));
    assert!(!is_strict(Some("0\n")));
    assert!(!is_strict(Some("22\n")));
    assert!(!is_strict(None));
}

#[test]
fn the_mode_that_was_read_first_stands() {
    let mut cache = OvercommitCache::new();
    assert!(!cache.is_read());
    assert_eq!(overcommit_mode(&mut cache, Some("2\n")), 2);
    assert!(cache.is_read());
    assert_eq!(overcommit_mode(&mut cache, Some("1\n")), 2);
    assert_eq!(overcommit_mode(&mut cache, None), 2);
    assert!(is_strict_overcommit(&mut cache, Some("0\n")));
}

#[test]
fn a_read_that_failed_stands_for_zero_ever_after() {
    let mut cache = OvercommitCache::new();
    assert!(!is_strict_overcommit(&mut cache, None));
    assert!(cache.is_read());
    assert!(!is_strict_overcommit(&mut cache, Some("2\n")));
}
