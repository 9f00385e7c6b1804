use rbr2g29::car_folders::CarFolders;

#[test]
fn test_resolve_known_indices() {
    let folders = CarFolders::new();
    assert_eq!(folders.resolve_value(2).as_deref(), Some("mg_zr"));
    assert_eq!(folders.resolve_value(0).as_deref(), Some("c_xsara"));
    assert_eq!(folders.resolve_value(1).as_deref(), Some("h_accent"));
    assert_eq!(folders.resolve_value(3).as_deref(), Some("m_lancer"));
    assert_eq!(folders.resolve_value(4).as_deref(), Some("p_206"));
    assert_eq!(folders.resolve_value(5).as_deref(), Some("s_i2003"));
    assert_eq!(folders.resolve_value(6).as_deref(), Some("t_coroll"));
    assert_eq!(folders.resolve_value(7).as_deref(), Some("s_i2000"));
}

#[test]
fn test_resolve_unknown_index() {
    let folders = CarFolders::new();
    assert_eq!(folders.resolve_value(99), None);
    assert_eq!(folders.resolve_value(8), None);
    assert_eq!(folders.resolve_value(-1), None);
}
