use vstd::prelude::*;
use crate::gear_map::{GearMap, default_gear_map, rpm_for_gear_spec};

verus! {

/// The slice of one telemetry record that RPM tracking reads, as plain
/// integers: engine RPM rounded to whole revolutions and race time in
/// milliseconds. The caller converts the packet's readings once per update.
#[derive(Clone, Copy, Debug, PartialEq, Eq, Structural)]
pub struct TelemetrySample {
    pub car_index: i32,
    pub gear: i32,
    pub rpm: u32,
    pub race_time_ms: u32,
}

/// The RPM tracker: current RPM, tracked gear and car, the active upshift
/// threshold for that gear, the RPM ceiling, the previous race time (for
/// stage-restart detection) and the gear map the thresholds come from.
pub struct RPM {
    pub current: u32,
    pub car: i32,
    pub gear: i32,
    pub max: u32,
    pub upshift: u32,
    pub previous_time: u32,
    pub gears: GearMap,
}

/// The tracker before the first update: everything zero, the gear map all
/// unknown.
pub open spec fn initial_tracker() -> RPM {
    RPM {
        current: 0,
        car: 0,
        gear: 0,
        max: 0,
        upshift: 0,
        previous_time: 0,
        gears: default_gear_map(),
    }
}

/// A gear-map reload is due exactly when the sample's car index differs
/// from the tracked one, or the race time has fallen from a positive value
/// to exactly zero (a stage restart). A feed that reports zero race time
/// continuously before a run starts must not retrigger on every update:
/// only the falling edge does.
pub open spec fn needs_reload_spec(t: RPM, s: TelemetrySample) -> bool {
    s.car_index != t.car || (s.race_time_ms == 0 && t.previous_time > 0)
}

/// The tracker after one update. A freshly loaded map is installed only
/// when a reload was due and the attempt succeeded; otherwise the old map
/// is kept whole. The upshift threshold is recomputed from the current map
/// only when the gear changed; RPM, ceiling and previous race time are
/// refreshed on every update.
pub open spec fn tracker_step(pre: RPM, s: TelemetrySample, reload: Option<GearMap>) -> RPM {
    let gears = if needs_reload_spec(pre, s) && reload is Some {
        reload->0
    } else {
        pre.gears
    };
    let upshift = if s.gear != pre.gear {
        rpm_for_gear_spec(gears, s.gear as int)
    } else {
        pre.upshift
    };
    RPM {
        current: s.rpm,
        car: s.car_index,
        gear: s.gear,
        max: gears.rpm_limit,
        upshift: upshift,
        previous_time: s.race_time_ms,
        gears: gears,
    }
}

impl RPM {
    pub fn new() -> (t: RPM)
        ensures
            t == initial_tracker(),
    {
        RPM {
            current: 0,
            car: 0,
            gear: 0,
            max: 0,
            upshift: 0,
            previous_time: 0,
            gears: GearMap::default(),
        }
    }

    /// Whether this sample calls for a gear-map reload. The caller asks
    /// this first, attempts the reload (process lookup and file read) only
    /// when it answers true, and passes the outcome to `update`.
    pub fn needs_reload(&self, s: &TelemetrySample) -> (r: bool)
        ensures
            r == needs_reload_spec(*self, *s),
    {
        s.car_index != self.car || (s.race_time_ms == 0 && self.previous_time > 0)
    }

    /// One telemetry update. `reload` is the outcome of the caller's reload
    /// attempt for this sample: `Some` with the freshly loaded map, or
    /// `None` when no reload was due or the attempt failed. On failure the
    /// old map is kept whole, so the lights degrade to stale thresholds
    /// rather than going dark.
    pub fn update(&mut self, s: &TelemetrySample, reload: Option<GearMap>)
        ensures
            *final(self) == tracker_step(*old(self), *s, reload),
    {
        if self.needs_reload(s) {
            match reload {
                Some(g) => {
                    self.gears = g;
                },
                None => {},
            }
        }
        if s.gear != self.gear {
            self.gear = s.gear;
            self.upshift = self.gears.get_rpm_for_gear(s.gear);
        }
        self.current = s.rpm;
        self.car = s.car_index;
        self.max = self.gears.rpm_limit;
        self.previous_time = s.race_time_ms;
    }
}

/// After an update that processed sample `s`, no further reload is due
/// until another car-change or stage-restart edge: a following sample with
/// the same car index and no fresh falling edge of the race time triggers
/// none, whatever the earlier reload attempt returned.
pub proof fn lemma_one_reload_per_edge(
    pre: RPM,
    s: TelemetrySample,
    reload: Option<GearMap>,
    s2: TelemetrySample,
)
    requires
        s2.car_index == s.car_index,
        !(s2.race_time_ms == 0 && s.race_time_ms > 0),
    ensures
        !needs_reload_spec(tracker_step(pre, s, reload), s2),
{
}

/// A reload never leaves the tracker with a partially updated map: after
/// any update the map is either the old one, kept whole, or the freshly
/// loaded one, substituted whole.
pub proof fn lemma_reload_atomic(pre: RPM, s: TelemetrySample, reload: Option<GearMap>)
    ensures
        tracker_step(pre, s, reload).gears == pre.gears || (reload is Some && tracker_step(
            pre,
            s,
            reload,
        ).gears == reload->0),
{
}

} // verus!
