//! Following the pointer over the colour picker.

use vstd::prelude::*;

verus! {

/// Is the button down?
#[derive(Debug, Clone, Copy, PartialEq, Eq, Structural)]
pub struct Held {
    pub down: bool,
}

impl Default for Held {
    fn default() -> (held: Self)
        ensures
            !held.down,
    {
        Held { down: false }
    }
}

/// What the pointer did.
#[derive(Debug, Clone, Copy, PartialEq, Eq, Structural)]
pub enum Press {
    /// The left button went down, over the picker or not.
    Down { inside: bool },
    /// It moved, to a known place or not.
    Moved { known: bool },
    /// The left button went up.
    Up,
}

/// What comes of it.
#[derive(Debug, Clone, Copy, PartialEq, Eq, Structural)]
pub enum Outcome {
    /// Read the colour under the pointer.
    Read,
    /// The colour is meant.
    Commit,
}

impl Held {
    /// Press to set, drag to keep setting, release to commit.
    pub open spec fn after(self, press: Press) -> (Held, Option<Outcome>) {
        match press {
            Press::Down { inside: true } => (Held { down: true }, Some(Outcome::Read)),
            Press::Moved { known: true } if self.down => (self, Some(Outcome::Read)),
            Press::Up if self.down => (Held { down: false }, Some(Outcome::Commit)),
            _ => (self, None),
        }
    }

    pub fn track(&mut self, press: Press) -> (r: Option<Outcome>)
        ensures
            (*final(self), r) == old(self).after(press),
    {
        match press {
            Press::Down { inside } => {
                if !inside {
                    return None;
                }
                self.down = true;
                Some(Outcome::Read)
            },
            Press::Moved { known } => {
                if self.down && known {
                    Some(Outcome::Read)
                } else {
                    None
                }
            },
            Press::Up => {
                if !self.down {
                    return None;
                }
                self.down = false;
                Some(Outcome::Commit)
            },
        }
    }
}

/// A colour is committed once for every press over the picker: after letting go
/// nothing more is read or committed until the next.
pub proof fn law_letting_go_ends_it(held: Held, known: bool)
    ensures
        held.after(Press::Up).0.after(Press::Up).1 is None,
        held.after(Press::Up).0.after(Press::Moved { known }).1 is None,
{
}

/// A press over the picker reads the colour there, a drag keeps reading, and
/// letting go commits it; without a press over it none of that happens.
pub proof fn law_pressing_reads_and_letting_go_commits(held: Held)
    ensures
        held.after(Press::Down { inside: true }) == (Held { down: true }, Some(Outcome::Read)),
        held.after(Press::Down { inside: false }) == (held, None::<Outcome>),
        (Held { down: true }).after(Press::Moved { known: true }).1 == Some(Outcome::Read),
        (Held { down: true }).after(Press::Moved { known: true }).0.down,
        (Held { down: true }).after(Press::Up) == (Held { down: false }, Some(Outcome::Commit)),
        (Held { down: false }).after(Press::Moved { known: true }).1 is None,
        (Held { down: false }).after(Press::Up).1 is None,
        held.after(Press::Moved { known: false }) == (held, None::<Outcome>),
{
}

} // verus!
