//! The backlight colour that the local display shows for an air quality index.
use vstd::prelude::*;

verus! {

/// The colour band of an air quality index: light blue up to 15, green up to
/// 50, yellow up to 100, orange up to 150, red up to 200, purple up to 300,
/// maroon above.
pub open spec fn aqi_color(level: u16) -> (u8, u8, u8) {
    if level <= 15 {
        (0x00, 0x10, 0x40)
    } else if level <= 50 {
        (0x00, 0x80, 0x00)
    } else if level <= 100 {
        (0x80, 0x80, 0x00)
    } else if level <= 150 {
        (0xF0, 0x40, 0x00)
    } else if level <= 200 {
        (0xF0, 0x00, 0x00)
    } else if level <= 300 {
        (0xA0, 0x00, 0x40)
    } else {
        (0xFF, 0x00, 0xFF)
    }
}

/// The red, green and blue levels for an air quality index.
pub fn display_color_for_aqi(aqi_level: u16) -> (r: (u8, u8, u8))
    ensures
        r == aqi_color(aqi_level),
{
    if aqi_level <= 15 {
        (0x00, 0x10, 0x40)
    } else if aqi_level <= 50 {
        (0x00, 0x80, 0x00)
    } else if aqi_level <= 100 {
        (0x80, 0x80, 0x00)
    } else if aqi_level <= 150 {
        (0xF0, 0x40, 0x00)
    } else if aqi_level <= 200 {
        (0xF0, 0x00, 0x00)
    } else if aqi_level <= 300 {
        (0xA0, 0x00, 0x40)
    } else {
        (0xFF, 0x00, 0xFF)
    }
}

} // verus!
