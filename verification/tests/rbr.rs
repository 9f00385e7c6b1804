use rbr2g29::car_folders::CarFolders;
use rbr2g29::rbr::{build_physics_path, rbr_process_name};

#[test]
fn test_build_physics_path_known_car() {
    let folders = CarFolders::new();
    let p = build_physics_path(&folders, "C:/Games/RBR", 2);
    assert_eq!(p.as_deref(), Some("C:/Games/RBR/Physics/mg_zr"));
}

#[test]
fn test_build_physics_path_unknown_car() {
    let folders = CarFolders::new();
    assert_eq!(build_physics_path(&folders, "C:/Games/RBR", 99), None);
}

#[test]
fn test_process_name() {
    assert_eq!(rbr_process_name(), "RichardBurnsRally_SSE.exe");
}
