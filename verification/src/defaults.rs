//! Fixed configuration values: GPIO pin assignments and the fallback
//! access PIN used when no override is configured.

use vstd::prelude::*;

verus! {

/// GPIO pins driving the four segments of the light.
pub fn light_gpio_pins() -> (pins: [u8; 4])
    ensures
        pins@ == seq![21u8, 22u8, 27u8, 17u8],
{
    let pins: [u8; 4] = [21, 22, 27, 17];
    proof {
        assert(pins@ =~= seq![21u8, 22u8, 27u8, 17u8]);
    }
    pins
}

/// GPIO pin the door contact sensor is wired to.
pub fn contact_sensor_pin() -> (pin: u8)
    ensures
        pin == 18,
{
    18
}

/// The access PIN used when the surrounding process supplies no override.
pub fn default_pin() -> (pin: u16)
    ensures
        pin == 6245,
{
    6245
}

} // verus!
