//! A value paired with an on / off status.

use vstd::prelude::*;

verus! {

/// A value which can be turned on or off.
#[derive(Clone, Copy, Debug, Default, PartialEq, Eq, Hash)]
pub struct Switch<T> {
    pub value: T,
    is_on: bool,
}

impl<T> Switch<T> {
    /// The on / off status of the switch.
    pub closed spec fn status(&self) -> bool {
        self.is_on
    }

    /// The value held by the switch.
    pub closed spec fn payload(&self) -> T {
        self.value
    }

    /// Constructor.
    pub fn new(value: T, is_on: bool) -> (r: Self)
        ensures
            r.payload() == value,
            r.status() == is_on,
    {
        Self { value, is_on }
    }

    /// A switch that is on.
    #[allow(non_snake_case)]
    pub fn On(value: T) -> (r: Self)
        ensures
            r.payload() == value,
            r.status(),
    {
        Self::new(value, true)
    }

    /// A switch that is off.
    #[allow(non_snake_case)]
    pub fn Off(value: T) -> (r: Self)
        ensures
            r.payload() == value,
            !r.status(),
    {
        Self::new(value, false)
    }

    /// Change the on / off status.
    pub fn switch(&mut self, is_on: bool)
        ensures
            final(self).payload() == old(self).payload(),
            final(self).status() == is_on,
    {
        self.is_on = is_on;
    }

    /// Toggle the on / off status.
    pub fn toggle(&mut self)
        ensures
            final(self).payload() == old(self).payload(),
            final(self).status() == !old(self).status(),
    {
        self.is_on = !self.is_on;
    }

    /// Change the on / off status while consuming the value.
    pub fn switched(self, is_on: bool) -> (r: Self)
        ensures
            r.payload() == self.payload(),
            r.status() == is_on,
    {
        let mut s = self;
        s.switch(is_on);
        s
    }

    /// Toggle the on / off status while consuming the value.
    pub fn toggled(self) -> (r: Self)
        ensures
            r.payload() == self.payload(),
            r.status() == !self.status(),
    {
        let mut s = self;
        s.toggle();
        s
    }

    /// Whether the value is enabled.
    pub fn is_on(&self) -> (r: bool)
        ensures
            r == self.status(),
    {
        self.is_on
    }

    /// Whether the value is disabled.
    pub fn is_off(&self) -> (r: bool)
        ensures
            r == !self.status(),
    {
        !self.is_on()
    }

    /// The value, if the switch is on.
    pub fn on(&self) -> (r: Option<&T>)
        ensures
            r == (if self.status() { Some(&self.payload()) } else { None }),
    {
        if self.is_on() {
            Some(&self.value)
        } else {
            None
        }
    }

    /// The value, if the switch is off.
    pub fn off(&self) -> (r: Option<&T>)
        ensures
            r == (if !self.status() { Some(&self.payload()) } else { None }),
    {
        if self.is_off() {
            Some(&self.value)
        } else {
            None
        }
    }

    /// The value, if the switch is on, consuming the switch.
    pub fn into_on(self) -> (r: Option<T>)
        ensures
            r == (if self.status() { Some(self.payload()) } else { None }),
    {
        if self.is_on() {
            Some(self.value)
        } else {
            None
        }
    }

    /// The value, if the switch is off, consuming the switch.
    pub fn into_off(self) -> (r: Option<T>)
        ensures
            r == (if !self.status() { Some(self.payload()) } else { None }),
    {
        if self.is_off() {
            Some(self.value)
        } else {
            None
        }
    }
}

} // verus!
