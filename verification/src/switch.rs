//! A pill-shaped toggle switch: what it shows for its state.
use vstd::prelude::*;

verus! {

/// Which pair of theme colours a part of the switch takes.
#[derive(Clone, Copy, Debug, PartialEq, Eq, Structural)]
pub enum SwitchTone {
    /// The primary button colours.
    Primary,
    /// The secondary button colours.
    Secondary,
}

/// A toggle switch that can be checked or unchecked.
#[derive(Clone, Debug, PartialEq)]
pub struct Switch {
    pub id: String,
    pub checked: bool,
    pub disabled: bool,
}

impl Switch {
    /// An unchecked, enabled switch.
    pub fn new(id: String) -> (res: Self)
        ensures
            res.id@ == id@,
            !res.checked,
            !res.disabled,
    {
        Switch { id, checked: false, disabled: false }
    }

    /// The same switch, checked or not.
    pub fn checked(self, checked: bool) -> (res: Self)
        ensures
            res.checked == checked,
            res.id == self.id,
            res.disabled == self.disabled,
    {
        let mut s = self;
        s.checked = checked;
        s
    }

    /// The colours of the track and of the thumb: primary when the switch
    /// is checked and enabled, secondary otherwise.
    pub fn tone(&self) -> (res: SwitchTone)
        ensures
            res == if !self.disabled && self.checked {
                SwitchTone::Primary
            } else {
                SwitchTone::Secondary
            },
    {
        if self.disabled {
            SwitchTone::Secondary
        } else if self.checked {
            SwitchTone::Primary
        } else {
            SwitchTone::Secondary
        }
    }

    /// Whether the thumb sits at the right end of the track: when checked.
    pub fn thumb_at_end(&self) -> (res: bool)
        ensures
            res == self.checked,
    {
        self.checked
    }

    /// Whether the switch reacts to the pointer: when it is enabled.
    pub fn clickable(&self) -> (res: bool)
        ensures
            res == !self.disabled,
    {
        !self.disabled
    }
}

} // verus!
