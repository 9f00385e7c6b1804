use rbr2g29::gear_map::GearMap;
use rbr2g29::util::RBR2G29Error;

#[test]
fn test_gear2upshift_sets_threshold() {
    let m = GearMap::load_from_bytes(b"GeAr2UpShIfT 6500\n").unwrap();
    assert_eq!(m.gear2_upshift, 6500);
    assert_eq!(m.gear2_downshift, 0);
    assert_eq!(m.gear1_upshift, 0);
    assert_eq!(m.rpm_limit, 0);
}

#[test]
fn test_three_token_line_skipped() {
    let m = GearMap::load_from_bytes(b"gear2upshift 6500 extra\ngear3upshift 7000\n").unwrap();
    assert_eq!(m.gear2_upshift, 0);
    assert_eq!(m.gear3_upshift, 7000);
}

#[test]
fn test_bad_value_fails_whole_load() {
    let r = GearMap::load_from_bytes(b"gear1upshift 6000\nrpmlimit notanumber\n");
    assert!(matches!(r, Err(RBR2G29Error::ConfigParseError)));
}

#[test]
fn test_unrecognized_key_ignored() {
    let m = GearMap::load_from_bytes(b"gearbox 5\ngear9upshift 1000\n").unwrap();
    assert_eq!(m, GearMap::default());
}

#[test]
fn test_non_candidate_lines_skipped() {
    let m = GearMap::load_from_bytes(b"; comment line\nweight 1230\n\n").unwrap();
    assert_eq!(m, GearMap::default());
}

#[test]
fn test_case_insensitive_rpmlimit() {
    let m = GearMap::load_from_bytes(b"RPMLIMIT 7500\n").unwrap();
    assert_eq!(m.rpm_limit, 7500);
}

#[test]
fn test_downshift_key() {
    let m = GearMap::load_from_bytes(b"gear4downshift 3000\n").unwrap();
    assert_eq!(m.gear4_downshift, 3000);
    assert_eq!(m.gear4_upshift, 0);
}

#[test]
fn test_fractional_value_rounds_half_up() {
    let hi = GearMap::load_from_bytes(b"rpmlimit 6500.5\n").unwrap();
    assert_eq!(hi.rpm_limit, 6501);
    let lo = GearMap::load_from_bytes(b"rpmlimit 6500.4\n").unwrap();
    assert_eq!(lo.rpm_limit, 6500);
    let bare = GearMap::load_from_bytes(b"rpmlimit 6500.\n").unwrap();
    assert_eq!(bare.rpm_limit, 6500);
}

#[test]
fn test_huge_value_fails_load() {
    let r = GearMap::load_from_bytes(b"rpmlimit 99999999999\n");
    assert!(matches!(r, Err(RBR2G29Error::ConfigParseError)));
}

#[test]
fn test_later_line_overrides_earlier() {
    let m = GearMap::load_from_bytes(b"gear2upshift 6000\ngear2upshift 6400\n").unwrap();
    assert_eq!(m.gear2_upshift, 6400);
}

#[test]
fn test_whitespace_tolerated() {
    let m = GearMap::load_from_bytes(b"  gear5upshift\t 7100 \r\n").unwrap();
    assert_eq!(m.gear5_upshift, 7100);
}

#[test]
fn test_empty_file_gives_default() {
    let m = GearMap::load_from_bytes(b"").unwrap();
    assert_eq!(m, GearMap::default());
}

#[test]
fn test_file_without_final_newline() {
    let m = GearMap::load_from_bytes(b"gear6upshift 8200").unwrap();
    assert_eq!(m.gear6_upshift, 8200);
}

#[test]
fn test_get_rpm_for_gear() {
    let m = GearMap::load_from_bytes(b"gear1upshift 5500\ngear2upshift 6500\n").unwrap();
    assert_eq!(m.get_rpm_for_gear(1), 5500);
    assert_eq!(m.get_rpm_for_gear(2), 6500);
    assert_eq!(m.get_rpm_for_gear(3), 0);
    assert_eq!(m.get_rpm_for_gear(-1), 0);
    assert_eq!(m.get_rpm_for_gear(7), 0);
}
