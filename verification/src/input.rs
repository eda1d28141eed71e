use vstd::prelude::*;

verus! {

/// A key of the keyboard, as far as the program tells keys apart.
#[derive(Clone, Copy, Debug, PartialEq, Eq, Structural)]
pub enum Key {
    Escape,
    Other,
}

/// What the program reads of an input event.
#[derive(Clone, Copy, Debug, PartialEq, Eq, Structural)]
pub enum InputEvent {
    /// The window was closed.
    Quit,
    /// A key went down; not every key has a code.
    KeyDown(Option<Key>),
    /// Anything else.
    Other,
}

/// Whether the event asks the program to end: the window was closed, or
/// the escape key went down.
pub open spec fn asks_to_quit(e: InputEvent) -> bool {
    e == InputEvent::Quit || e == InputEvent::KeyDown(Some(Key::Escape))
}

/// Looks through the events that are pending, and says `Some(0)` if one
/// of them asks the program to end.
pub fn event(pending: &Vec<InputEvent>) -> (r: Option<u32>)
    ensures
        (exists|i: int| 0 <= i < pending@.len() && asks_to_quit(pending@[i])) ==> r == Some(0u32),
        !(exists|i: int| 0 <= i < pending@.len() && asks_to_quit(pending@[i])) ==> r is None,
{
    let mut i: usize = 0;
    while i < pending.len()
        invariant
            0 <= i <= pending@.len(),
            forall|j: int| 0 <= j < i ==> !asks_to_quit(pending@[j]),
        decreases pending@.len() - i,
    {
        match pending[i] {
            InputEvent::Quit | InputEvent::KeyDown(Some(Key::Escape)) => {
                return Some(0);
            },
            _ => {},
        }
        i = i + 1;
    }
    None
}

} // verus!
