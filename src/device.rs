//! Hardware capabilities the device logic depends on. Real peripherals and
//! in-memory doubles both implement them.
use vstd::prelude::*;

verus! {

/// A digital output pin.
pub trait GpioOutput {
    /// The level the pin is driven to.
    spec fn level(&self) -> bool;

    fn set_output(&mut self, value: bool)
        ensures
            final(self).level() == value,
    ;

    fn get_output(&mut self) -> (r: bool)
        ensures
            r == old(self).level(),
            final(self).level() == old(self).level(),
    ;

    /// Drives the pin to the opposite level.
    fn toggle(&mut self)
        ensures
            final(self).level() == !old(self).level(),
    {
        let val = !self.get_output();
        self.set_output(val);
    }
}

/// A digital input pin.
pub trait GpioInput {
    fn get_input(&mut self) -> bool;
}

/// A PWM channel with a duty cycle between its minimum and maximum.
pub trait PwmOutput {
    fn set_duty_cycle(&mut self, duty_cycle: u16);

    fn get_duty_cycle(&mut self) -> u16;

    fn get_max_duty_cycle(&mut self) -> u16;

    /// The smallest duty cycle: zero unless the channel says otherwise.
    fn get_min_duty_cycle(&mut self) -> u16 {
        0
    }
}

} // verus!
