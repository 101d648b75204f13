//! Contact-sensor state tracking. Reading the physical pin (or the
//! simulation file) is I/O done by the surrounding process; these types
//! hold the last known state and decide whether a fresh reading is a
//! change.

use vstd::prelude::*;
use vstd::string::StringExecFns;

use crate::model::{bundle_eq, Bundle, DeviceError};

verus! {

/// The door contact sensor: remembers the last observed state
/// (true = door open), initially closed.
pub struct ContactSensor(bool);

impl ContactSensor {
    /// The last state this sensor observed.
    pub closed spec fn spec_open(&self) -> bool {
        self.0
    }

    /// Creates a new ContactSensor; until a reading arrives the door
    /// counts as closed.
    pub fn new() -> (sensor: Self)
        ensures
            !sensor.spec_open(),
    {
        ContactSensor(false)
    }

    pub fn is_open(&self) -> (open: bool)
        ensures
            open == self.spec_open(),
    {
        self.0
    }

    /// Applies one poll outcome: a failed poll changes nothing and hands
    /// the error back; a reading updates the remembered state and reports
    /// whether it differed from the state before.
    pub fn changed(&mut self, reading: Result<bool, DeviceError>) -> (res: Result<bool, DeviceError>)
        ensures
            match reading {
                Ok(open) => {
                    &&& final(self).spec_open() == open
                    &&& res == Result::<bool, DeviceError>::Ok(open != old(self).spec_open())
                },
                Err(e) => {
                    &&& *final(self) == *old(self)
                    &&& res == Result::<bool, DeviceError>::Err(e)
                },
            },
    {
        let new = match reading {
            Ok(open) => open,
            Err(e) => {
                return Err(e);
            },
        };
        // if the old and new state are different
        if self.0 != new {
            // Then update the old state
            self.0 = new;
            // and return that there was a change
            return Ok(true);
        }
        // Otherwise return false
        Ok(false)
    }
}

/// A simulated contact sensor: remembers the last bundle it observed,
/// initially none, so the very first reading always counts as a change.
pub struct ContactSensorSim {
    name: String,
    /// Storing the state can be useful when watching for changes
    state: Option<Bundle>,
}

impl ContactSensorSim {
    pub closed spec fn spec_name(&self) -> Seq<char> {
        self.name@
    }

    pub closed spec fn spec_state(&self) -> Option<Bundle> {
        self.state
    }

    /// Creates a new simulated ContactSensor.
    pub fn new(name: &str) -> (sensor: Self)
        ensures
            sensor.spec_name() == name@,
            sensor.spec_state() is None,
    {
        ContactSensorSim { name: String::from_str(name), state: None }
    }

    /// The given name for the sensor.
    pub fn name(&self) -> (name: &str)
        ensures
            name@ == self.spec_name(),
    {
        self.name.as_str()
    }

    /// Whether the device is reachable; the simulation always is.
    pub fn connected(&self) -> (res: Result<(), DeviceError>)
        ensures
            res is Ok,
    {
        Ok(())
    }

    /// Applies one fresh reading: with no recorded state, or a recorded
    /// state whose contents differ from the reading, the reading is
    /// stored and a change is reported.
    pub fn changed(&mut self, reading: Bundle) -> (res: Result<bool, DeviceError>)
        ensures
            match old(self).spec_state() {
                None => {
                    &&& final(self).spec_state() matches Some(b) && b.deep_view() == reading.deep_view()
                    &&& res == Result::<bool, DeviceError>::Ok(true)
                },
                Some(prior) => {
                    if prior.deep_view() == reading.deep_view() {
                        &&& *final(self) == *old(self)
                        &&& res == Result::<bool, DeviceError>::Ok(false)
                    } else {
                        &&& final(self).spec_state() matches Some(b) && b.deep_view() == reading.deep_view()
                        &&& res == Result::<bool, DeviceError>::Ok(true)
                    }
                },
            },
            final(self).spec_name() == old(self).spec_name(),
    {
        // If there is no old state, or the old and new state differ
        let is_change = match &self.state {
            None => true,
            Some(prior) => !bundle_eq(prior, &reading),
        };
        if is_change {
            // Then update the old state
            self.state = Some(reading);
            // and return that there was a change
            return Ok(true);
        }
        // Otherwise return false
        Ok(false)
    }

    /// The last reading this sensor stored, if any.
    pub fn state(&self) -> (state: Option<&Bundle>)
        ensures
            state is Some <==> self.spec_state() is Some,
            state matches Some(b) ==> self.spec_state() matches Some(s) && *b == s,
    {
        self.state.as_ref()
    }
}

} // verus!
