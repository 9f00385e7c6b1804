//! Bridge from a rally simulator's UDP telemetry feed to a steering wheel's
//! RPM indicator LEDs.
//!
//! The library holds the pure core of the bridge: the fixed-layout telemetry
//! codec, the car-index-to-folder table, the gear-map configuration parser,
//! the RPM tracking state machine and the LED state machine. All I/O (UDP,
//! HID writes, process discovery, file reads) lives in the surrounding
//! executable, which feeds this library plain values.

pub mod car_folders;
pub mod gear_map;
pub mod leds;
pub mod rbr;
pub mod rpm;
pub mod telemetry;
pub mod util;
