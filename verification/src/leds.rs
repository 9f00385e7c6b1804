use vstd::prelude::*;

verus! {

/// The six illumination levels of the wheel's RPM strip. Each level lights
/// a superset of the previous one's LEDs, so the levels form a closed,
/// ordered enumeration rather than independent bits.
#[derive(Clone, Copy, Debug, PartialEq, Eq, Structural)]
pub enum LedState {
    Off,
    One,
    Three,
    Seven,
    Fifteen,
    ThirtyOne,
}

impl LedState {
    /// The bit pattern the hardware expects for this level.
    pub open spec fn bits_spec(self) -> u8 {
        match self {
            LedState::Off => 0,
            LedState::One => 1,
            LedState::Three => 3,
            LedState::Seven => 7,
            LedState::Fifteen => 15,
            LedState::ThirtyOne => 31,
        }
    }

    /// The position of this level in the ordering from dark to fully lit.
    pub open spec fn rank(self) -> int {
        match self {
            LedState::Off => 0,
            LedState::One => 1,
            LedState::Three => 2,
            LedState::Seven => 3,
            LedState::Fifteen => 4,
            LedState::ThirtyOne => 5,
        }
    }

    pub fn bits(self) -> (b: u8)
        ensures
            b == self.bits_spec(),
    {
        match self {
            LedState::Off => 0,
            LedState::One => 1,
            LedState::Three => 3,
            LedState::Seven => 7,
            LedState::Fifteen => 15,
            LedState::ThirtyOne => 31,
        }
    }
}

/// Updates spent at the maximal level between flash transitions. The blink
/// is counted in telemetry updates, not wall-clock time, so its rate is
/// proportional to the telemetry rate — a deliberate simplification.
pub const FLASH_THRESHOLD: u8 = 2;

/// The level for a percentage into the active range, in buckets of width
/// 20. A percentage exactly on a bucket boundary (20, 40, 60, 80) resolves
/// to the higher bucket.
pub open spec fn bucket_of(pct: int) -> LedState {
    if pct < 20 {
        LedState::One
    } else if pct < 40 {
        LedState::Three
    } else if pct < 60 {
        LedState::Seven
    } else if pct < 80 {
        LedState::Fifteen
    } else {
        LedState::ThirtyOne
    }
}

/// Width of the active range: the top half of the RPM band below the
/// ceiling. Zero when the ceiling is unknown (0) or too small to split.
pub open spec fn range_width(ceiling: u32) -> int {
    ceiling as int / 2
}

/// Start of the active range; RPM below it leaves the strip dark.
pub open spec fn range_start(ceiling: u32) -> int {
    ceiling - ceiling as int / 2
}

/// The level for the current RPM against the RPM ceiling: dark below the
/// range start or when the range is empty, else bucketed by the percentage
/// of the way from range start to ceiling.
pub open spec fn level_spec(rpm: u32, ceiling: u32) -> LedState {
    if range_width(ceiling) <= 0 || (rpm as int) < range_start(ceiling) {
        LedState::Off
    } else {
        bucket_of((rpm - range_start(ceiling)) * 100 / range_width(ceiling))
    }
}

/// Computes the level for an RPM reading under an RPM ceiling.
pub fn level_for(rpm: u32, ceiling: u32) -> (l: LedState)
    ensures
        l == level_spec(rpm, ceiling),
{
    let width = ceiling / 2;
    let start = ceiling - width;
    if width == 0 || rpm < start {
        LedState::Off
    } else {
        let pct: u64 = ((rpm - start) as u64) * 100 / (width as u64);
        if pct < 20 {
            LedState::One
        } else if pct < 40 {
            LedState::Three
        } else if pct < 60 {
            LedState::Seven
        } else if pct < 80 {
            LedState::Fifteen
        } else {
            LedState::ThirtyOne
        }
    }
}

/// The 8-byte HID output report that sets the strip to a bit pattern.
pub open spec fn report_spec(bits: u8) -> Seq<u8> {
    seq![0u8, 0xF8u8, 0x12u8, bits, 0u8, 0u8, 0u8, 1u8]
}

/// Builds the HID output report for a bit pattern.
pub fn report_for(bits: u8) -> (r: [u8; 8])
    ensures
        r@ == report_spec(bits),
{
    let r: [u8; 8] = [0, 0xF8, 0x12, bits, 0, 0, 0, 1];
    proof {
        assert(r@ =~= report_spec(bits));
    }
    r
}

/// The LED controller's state: the currently illuminated level, whether the
/// flashing phase currently has the lights blanked, and the debounce
/// counter of updates spent at the maximal level.
pub struct LEDS {
    pub state: LedState,
    pub flash_toggled: bool,
    pub flash_timer: u8,
}

/// The controller state after one update at `level`.
pub open spec fn leds_step(pre: LEDS, level: LedState) -> LEDS {
    if level != pre.state {
        LEDS { state: level, flash_toggled: false, flash_timer: 0 }
    } else if level == LedState::ThirtyOne {
        let t = if pre.flash_timer < FLASH_THRESHOLD {
            (pre.flash_timer + 1) as u8
        } else {
            pre.flash_timer
        };
        if t >= FLASH_THRESHOLD {
            LEDS { state: pre.state, flash_toggled: !pre.flash_toggled, flash_timer: 0 }
        } else {
            LEDS { state: pre.state, flash_toggled: pre.flash_toggled, flash_timer: t }
        }
    } else {
        pre
    }
}

/// The bit pattern one update at `level` writes to the device, if any: the
/// new pattern on a level change, a blank-out or a restore during the
/// flashing phase at the maximal level, nothing otherwise.
pub open spec fn leds_write(pre: LEDS, level: LedState) -> Option<u8> {
    if level != pre.state {
        Some(level.bits_spec())
    } else if level == LedState::ThirtyOne {
        let t = if pre.flash_timer < FLASH_THRESHOLD {
            (pre.flash_timer + 1) as u8
        } else {
            pre.flash_timer
        };
        if t >= FLASH_THRESHOLD {
            if !pre.flash_toggled {
                Some(0)
            } else {
                Some(LedState::ThirtyOne.bits_spec())
            }
        } else {
            None
        }
    } else {
        None
    }
}

impl LEDS {
    /// A controller that starts dark with the flashing phase idle.
    pub fn new() -> (l: LEDS)
        ensures
            l.state == LedState::Off,
            !l.flash_toggled,
            l.flash_timer == 0,
    {
        LEDS { state: LedState::Off, flash_toggled: false, flash_timer: 0 }
    }

    /// One telemetry update: computes the level for the RPM reading, steps
    /// the state machine, and returns the report the caller must write to
    /// the device, if this update calls for one.
    pub fn update(&mut self, rpm: u32, ceiling: u32) -> (w: Option<[u8; 8]>)
        ensures
            *final(self) == leds_step(*old(self), level_spec(rpm, ceiling)),
            w is Some <==> leds_write(*old(self), level_spec(rpm, ceiling)) is Some,
            w is Some ==> w->0@ == report_spec(leds_write(*old(self), level_spec(rpm, ceiling))->0),
    {
        let level = level_for(rpm, ceiling);
        if level != self.state {
            self.state = level;
            self.flash_toggled = false;
            self.flash_timer = 0;
            Some(report_for(level.bits()))
        } else if level == LedState::ThirtyOne {
            let t = if self.flash_timer < FLASH_THRESHOLD {
                self.flash_timer + 1
            } else {
                self.flash_timer
            };
            if t >= FLASH_THRESHOLD {
                self.flash_timer = 0;
                if !self.flash_toggled {
                    self.flash_toggled = true;
                    Some(report_for(0))
                } else {
                    self.flash_toggled = false;
                    Some(report_for(31))
                }
            } else {
                self.flash_timer = t;
                None
            }
        } else {
            None
        }
    }
}

/// The strip is monotone with computed intensity outside the flashing
/// phase: a higher level never lights fewer LEDs. Stated over the closed
/// ordering `rank` and the hardware patterns.
pub proof fn lemma_bits_monotone(a: LedState, b: LedState)
    ensures
        a.rank() <= b.rank() ==> a.bits_spec() <= b.bits_spec(),
{
}

/// Under one ceiling, the level never drops as RPM rises: the computed
/// intensity, and with `lemma_bits_monotone` the bit pattern itself, is
/// monotone in the RPM reading.
pub proof fn lemma_level_monotone(rpm1: u32, rpm2: u32, ceiling: u32)
    requires
        rpm1 <= rpm2,
    ensures
        level_spec(rpm1, ceiling).rank() <= level_spec(rpm2, ceiling).rank(),
{
    let width = range_width(ceiling);
    let start = range_start(ceiling);
    if width > 0 && start <= rpm1 {
        vstd::arithmetic::div_mod::lemma_div_is_ordered(
            (rpm1 - start) * 100,
            (rpm2 - start) * 100,
            width,
        );
    }
}

/// When the range start is 0 — the ceiling equals the idle baseline, so the
/// active range is empty — the level is `Off` whatever the RPM reading.
pub proof fn lemma_zero_range_stays_dark(rpm: u32, ceiling: u32)
    requires
        range_start(ceiling) == 0,
    ensures
        level_spec(rpm, ceiling) == LedState::Off,
{
}

/// A percentage exactly on a bucket boundary resolves to the higher of the
/// two buckets that meet there, consistently at 20, 40, 60 and 80.
pub proof fn lemma_boundary_resolves_higher()
    ensures
        bucket_of(20) == LedState::Three,
        bucket_of(40) == LedState::Seven,
        bucket_of(60) == LedState::Fifteen,
        bucket_of(80) == LedState::ThirtyOne,
        bucket_of(19) == LedState::One,
        bucket_of(39) == LedState::Three,
        bucket_of(59) == LedState::Seven,
        bucket_of(79) == LedState::Fifteen,
{
}

} // verus!
