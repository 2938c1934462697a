use vstd::prelude::*;

verus! {

/// The keys the prompt distinguishes. Any key outside this set is `Other`
/// and is ignored by the editor.
#[derive(Clone, Copy, PartialEq, Eq, Structural, Debug)]
pub enum KeyCode {
    Esc,
    Enter,
    Backspace,
    Left,
    Right,
    Char(char),
    Other,
}

/// Modifier keys held down together with a key press. `other` stands for
/// any modifier beyond the three named ones (super, hyper, meta), so that
/// an Enter held with such a modifier is still a modified Enter.
#[derive(Clone, Copy, PartialEq, Eq, Structural, Debug)]
pub struct KeyModifiers {
    pub shift: bool,
    pub control: bool,
    pub alt: bool,
    pub other: bool,
}

impl KeyModifiers {
    /// No modifier key is held.
    pub open spec fn is_none_spec(self) -> bool {
        !self.shift && !self.control && !self.alt && !self.other
    }

    pub fn is_none(&self) -> (r: bool)
        ensures
            r == self.is_none_spec(),
    {
        !self.shift && !self.control && !self.alt && !self.other
    }

    pub fn none() -> (r: KeyModifiers)
        ensures
            r.is_none_spec(),
    {
        KeyModifiers { shift: false, control: false, alt: false, other: false }
    }
}

/// A structured key press: which key, and which modifiers were held.
#[derive(Clone, Copy, PartialEq, Eq, Structural, Debug)]
pub struct KeyEvent {
    pub code: KeyCode,
    pub modifiers: KeyModifiers,
}

impl KeyEvent {
    pub fn new(code: KeyCode, modifiers: KeyModifiers) -> (r: KeyEvent)
        ensures
            r.code == code,
            r.modifiers == modifiers,
    {
        KeyEvent { code, modifiers }
    }
}

} // verus!
