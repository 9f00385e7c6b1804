use vstd::prelude::*;
use crate::car_folders::{CarFolders, car_folder_spec};

verus! {

/// File name of the simulator's executable. Process discovery matches it
/// exactly against the running process list; the install directory is
/// taken from the matched process.
pub fn rbr_process_name() -> (s: &'static str)
    ensures
        s@ == "RichardBurnsRally_SSE.exe"@,
{
    "RichardBurnsRally_SSE.exe"
}

/// The per-car physics folder path under an install directory:
/// `<install>/Physics/<car-folder>`, or `None` when the car index is
/// unknown to the folder table — an expected outcome for a new or
/// unsupported car, not an error.
pub open spec fn physics_path_spec(install: Seq<char>, index: int) -> Option<Seq<char>> {
    match car_folder_spec(index) {
        Some(folder) => Some(install + "/Physics/"@ + folder),
        None => None,
    }
}

/// Composes the physics folder path for a car index, or `None` when the
/// folder table cannot resolve the index.
pub fn build_physics_path(folders: &CarFolders, install_path: &str, car_index: i32) -> (r: Option<
    String,
>)
    ensures
        match r {
            Some(p) => physics_path_spec(install_path@, car_index as int) == Some(p@),
            None => physics_path_spec(install_path@, car_index as int) is None,
        },
{
    match folders.resolve_value(car_index) {
        Some(folder) => {
            let mut p = String::from_str(install_path);
            p.append("/Physics/");
            p.append(folder.as_str());
            Some(p)
        },
        None => None,
    }
}

} // verus!
