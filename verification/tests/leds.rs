use rbr2g29::leds::{level_for, report_for, LedState, LEDS};

#[test]
fn test_report_bytes_all_states() {
    for state in [0u8, 1, 3, 7, 15, 31] {
        assert_eq!(
            report_for(state),
            [0x00, 0xF8, 0x12, state, 0x00, 0x00, 0x00, 0x01]
        );
    }
}

#[test]
fn test_level_buckets_with_boundaries() {
    // ceiling 200: active range starts at 100 and is 100 wide, so RPM maps
    // straight to a percentage.
    assert_eq!(level_for(99, 200), LedState::Off);
    assert_eq!(level_for(100, 200), LedState::One);
    assert_eq!(level_for(119, 200), LedState::One);
    assert_eq!(level_for(120, 200), LedState::Three); // boundary 20 -> higher bucket
    assert_eq!(level_for(139, 200), LedState::Three);
    assert_eq!(level_for(140, 200), LedState::Seven); // boundary 40
    assert_eq!(level_for(159, 200), LedState::Seven);
    assert_eq!(level_for(160, 200), LedState::Fifteen); // boundary 60
    assert_eq!(level_for(179, 200), LedState::Fifteen);
    assert_eq!(level_for(180, 200), LedState::ThirtyOne); // boundary 80
    assert_eq!(level_for(200, 200), LedState::ThirtyOne);
    assert_eq!(level_for(5000, 200), LedState::ThirtyOne);
}

#[test]
fn test_zero_range_stays_dark() {
    for rpm in [0u32, 1, 6500, u32::MAX] {
        assert_eq!(level_for(rpm, 0), LedState::Off);
    }
    // a ceiling of 1 leaves the top half of the band empty as well
    assert_eq!(level_for(1, 1), LedState::Off);
}

#[test]
fn test_state_change_writes_once() {
    let mut leds = LEDS::new();
    assert_eq!(leds.state, LedState::Off);
    let w = leds.update(100, 200);
    assert_eq!(w, Some([0x00, 0xF8, 0x12, 1, 0x00, 0x00, 0x00, 0x01]));
    assert_eq!(leds.state, LedState::One);
    // same level again: no further write
    assert_eq!(leds.update(100, 200), None);
    let w = leds.update(140, 200);
    assert_eq!(w, Some([0x00, 0xF8, 0x12, 7, 0x00, 0x00, 0x00, 0x01]));
}

#[test]
fn test_flash_two_updates_blank_two_more_restore() {
    let mut leds = LEDS {
        state: LedState::ThirtyOne,
        flash_toggled: false,
        flash_timer: 0,
    };
    let blank = [0x00, 0xF8, 0x12, 0, 0x00, 0x00, 0x00, 0x01];
    let full = [0x00, 0xF8, 0x12, 31, 0x00, 0x00, 0x00, 0x01];
    // two consecutive updates at state 31: exactly one blank-out write
    let w1 = leds.update(200, 200);
    let w2 = leds.update(200, 200);
    assert_eq!(w1, None);
    assert_eq!(w2, Some(blank));
    assert!(leds.flash_toggled);
    // two more: exactly one restore-to-31 write
    let w3 = leds.update(200, 200);
    let w4 = leds.update(200, 200);
    assert_eq!(w3, None);
    assert_eq!(w4, Some(full));
    assert!(!leds.flash_toggled);
}

#[test]
fn test_leaving_flash_resets_debounce() {
    let mut leds = LEDS {
        state: LedState::ThirtyOne,
        flash_toggled: false,
        flash_timer: 1,
    };
    // the level drops: one write for the new state, flash machinery reset
    let w = leds.update(100, 200);
    assert_eq!(w, Some([0x00, 0xF8, 0x12, 1, 0x00, 0x00, 0x00, 0x01]));
    assert_eq!(leds.flash_timer, 0);
    assert!(!leds.flash_toggled);
}

#[test]
fn test_bits_patterns() {
    assert_eq!(LedState::Off.bits(), 0);
    assert_eq!(LedState::One.bits(), 1);
    assert_eq!(LedState::Three.bits(), 3);
    assert_eq!(LedState::Seven.bits(), 7);
    assert_eq!(LedState::Fifteen.bits(), 15);
    assert_eq!(LedState::ThirtyOne.bits(), 31);
}
