//! What is known of the window and of the keys and buttons held down,
//! brought up to date from the events of each frame.

use std::collections::HashSet;
use vstd::prelude::*;

verus! {

/// What an event of the window means for the input state.
#[derive(Debug, Copy, Clone, PartialEq, Eq, Structural)]
pub enum Change {
    /// The window was closed.
    Closed,
    /// The mouse moved to a position.
    MouseMoved(i32, i32),
    /// The window was resized to a width and a height.
    Resized(u32, u32),
    /// The key with the given code went down.
    KeyPressed(u32),
    /// The key with the given code came up.
    KeyReleased(u32),
    /// The mouse button with the given code went down.
    ButtonPressed(u32),
    /// The mouse button with the given code came up.
    ButtonReleased(u32),
    /// Anything else: the state stays as it is.
    Other,
}

/// The input state as plain values.
pub struct Input {
    pub window_size: (u32, u32),
    pub mouse_position: (i32, i32),
    pub key_down: Set<u32>,
    pub button_down: Set<u32>,
    pub running: bool,
}

/// The state after one event.
pub open spec fn apply(state: Input, change: Change) -> Input {
    match change {
        Change::Closed => Input { running: false, ..state },
        Change::MouseMoved(x, y) => Input { mouse_position: (x, y), ..state },
        Change::Resized(w, h) => Input { window_size: (w, h), ..state },
        Change::KeyPressed(key) => Input { key_down: state.key_down.insert(key), ..state },
        Change::KeyReleased(key) => Input { key_down: state.key_down.remove(key), ..state },
        Change::ButtonPressed(key) => Input { button_down: state.button_down.insert(key), ..state },
        Change::ButtonReleased(key) => Input {
            button_down: state.button_down.remove(key),
            ..state
        },
        Change::Other => state,
    }
}

/// The state after the first `upto` of a sequence of events, in order.
pub open spec fn apply_all<E>(state: Input, polled: Seq<(Change, E)>, upto: int) -> Input
    decreases upto,
{
    if upto <= 0 {
        state
    } else {
        apply(apply_all(state, polled, upto - 1), polled[upto - 1].0)
    }
}

/// The input state, and the events of the current frame as they came.
#[derive(Debug)]
pub struct Events<E> {
    /// the last known window dimensions
    pub window_size: (u32, u32),
    /// the last known mouse position
    pub mouse_position: (i32, i32),
    /// list of events collected during the frame
    pub events: Vec<E>,
    /// set of keys that are depressed
    pub key_down: HashSet<u32>,
    /// set of mouse buttons that are depressed
    pub button_down: HashSet<u32>,
    /// running flag
    pub running: bool,
}

impl<E> Events<E> {
    /// The input state, apart from the list of events.
    pub open spec fn state(&self) -> Input {
        Input {
            window_size: self.window_size,
            mouse_position: self.mouse_position,
            key_down: self.key_down@,
            button_down: self.button_down@,
            running: self.running,
        }
    }

    /// The state at the start: a window of the given size, or of 800 by 600
    /// where the size is not known, the mouse in the corner, nothing held
    /// down, running.
    pub fn new(size: Option<(u32, u32)>) -> (events: Events<E>)
        ensures
            events.events@.len() == 0,
            events.state() == (Input {
                window_size: match size {
                    Some(s) => s,
                    None => (800u32, 600u32),
                },
                mouse_position: (0i32, 0i32),
                key_down: Set::empty(),
                button_down: Set::empty(),
                running: true,
            }),
    {
        Events {
            window_size: match size {
                Some(s) => s,
                None => (800, 600),
            },
            mouse_position: (0, 0),
            events: Vec::new(),
            key_down: HashSet::new(),
            button_down: HashSet::new(),
            running: true,
        }
    }

    /// Takes in the events of a new frame: forgets those of the last one,
    /// brings the state up to date event by event, and keeps the events in
    /// the order in which they came.
    pub fn next_frame(&mut self, polled: Vec<(Change, E)>)
        ensures
            final(self).state() == apply_all(old(self).state(), polled@, polled@.len() as int),
            final(self).events@ == polled@.map_values(|p: (Change, E)| p.1),
    {
        broadcast use vstd::std_specs::hash::group_hash_axioms;

        self.events.clear();
        let ghost all = polled@;
        for p in it: polled
            invariant
                it.seq() == all,
                self.state() == apply_all(old(self).state(), all, it.index() as int),
                self.events@ == all.subrange(0, it.index() as int).map_values(|p: (Change, E)| p.1),
        {
            let (change, e) = p;
            match change {
                Change::Closed => {
                    self.running = false;
                },
                Change::MouseMoved(x, y) => {
                    self.mouse_position = (x, y);
                },
                Change::Resized(w, h) => {
                    self.window_size = (w, h);
                },
                Change::KeyPressed(key) => {
                    self.key_down.insert(key);
                },
                Change::KeyReleased(key) => {
                    self.key_down.remove(&key);
                },
                Change::ButtonPressed(key) => {
                    self.button_down.insert(key);
                },
                Change::ButtonReleased(key) => {
                    self.button_down.remove(&key);
                },
                Change::Other => {},
            }
            self.events.push(e);
        }
    }

    /// Whether the key with the given code is held down.
    pub fn is_key_down(&self, key: u32) -> (down: bool)
        ensures
            down == self.state().key_down.contains(key),
    {
        broadcast use vstd::std_specs::hash::group_hash_axioms;

        self.key_down.contains(&key)
    }

    /// Whether the mouse button with the given code is held down.
    pub fn is_button_down(&self, button: u32) -> (down: bool)
        ensures
            down == self.state().button_down.contains(button),
    {
        broadcast use vstd::std_specs::hash::group_hash_axioms;

        self.button_down.contains(&button)
    }
}

} // verus!
