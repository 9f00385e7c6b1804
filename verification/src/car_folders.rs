use vstd::prelude::*;
use std::collections::HashMap;

verus! {

broadcast use vstd::std_specs::hash::group_hash_axioms;

/// The simulator's per-car physics folder for a given car index, or `None`
/// for an index the table does not know (a new or unsupported car; an
/// expected outcome, not an error).
pub open spec fn car_folder_spec(index: int) -> Option<Seq<char>> {
    if index == 0 {
        Some("c_xsara"@)
    } else if index == 1 {
        Some("h_accent"@)
    } else if index == 2 {
        Some("mg_zr"@)
    } else if index == 3 {
        Some("m_lancer"@)
    } else if index == 4 {
        Some("p_206"@)
    } else if index == 5 {
        Some("s_i2003"@)
    } else if index == 6 {
        Some("t_coroll"@)
    } else if index == 7 {
        Some("s_i2000"@)
    } else {
        None
    }
}

/// Static lookup from a numeric car index to the simulator's per-car
/// configuration folder name. Built once at startup and never mutated.
pub struct CarFolders {
    values_lookup: HashMap<i32, String>,
}

impl CarFolders {
    /// The stored table agrees with `car_folder_spec` on every key.
    #[verifier::type_invariant]
    spec fn inv(self) -> bool {
        forall|k: i32|
            {
                &&& (#[trigger] self.values_lookup@.contains_key(k)) <==> car_folder_spec(
                    k as int,
                ) is Some
                &&& self.values_lookup@.contains_key(k) ==> Some(self.values_lookup@[k]@)
                    == car_folder_spec(k as int)
            }
    }

    pub fn new() -> (folders: Self) {
        let mut values_lookup: HashMap<i32, String> = HashMap::new();
        values_lookup.insert(0, String::from_str("c_xsara"));
        values_lookup.insert(1, String::from_str("h_accent"));
        values_lookup.insert(2, String::from_str("mg_zr"));
        values_lookup.insert(3, String::from_str("m_lancer"));
        values_lookup.insert(4, String::from_str("p_206"));
        values_lookup.insert(5, String::from_str("s_i2003"));
        values_lookup.insert(6, String::from_str("t_coroll"));
        values_lookup.insert(7, String::from_str("s_i2000"));

        CarFolders { values_lookup }
    }

    /// Looks the car index up in the table: the known folder name for the 8
    /// supported indices, `None` for every other index.
    pub fn resolve_value(&self, index: i32) -> (r: Option<String>)
        ensures
            match r {
                Some(s) => car_folder_spec(index as int) == Some(s@),
                None => car_folder_spec(index as int) is None,
            },
    {
        proof {
            use_type_invariant(self);
        }
        match self.values_lookup.get(&index) {
            Some(s) => Some(s.clone()),
            None => None,
        }
    }
}

} // verus!
