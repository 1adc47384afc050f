//! Keys held down, as intents to turn and to move.

use vstd::prelude::*;

verus! {

/// A key of the keyboard, as far as the camera listens to it.
#[derive(Clone, Copy, Debug, PartialEq, Eq, Structural)]
pub enum Key {
    /// The left arrow.
    Left,
    /// The right arrow.
    Right,
    /// The up arrow.
    Up,
    /// The down arrow.
    Down,
    /// Any other key.
    Other,
}

/// What the keys held down ask for.
#[derive(Clone, Copy, Debug, PartialEq, Eq, Structural)]
pub struct InputHandler {
    /// `-1` to turn left, `1` to turn right, `0` to keep the heading.
    pub turn: i8,
    /// `1` to move forward, `-1` to move back, `0` to stand.
    pub adv: i8,
}

/// The intent to turn after `key` goes down, where it was `turn` before.
pub open spec fn turn_after_press(turn: i8, key: Key) -> i8 {
    match key {
        Key::Left => -1i8,
        Key::Right => 1,
        _ => turn,
    }
}

/// The intent to move after `key` goes down, where it was `adv` before.
pub open spec fn adv_after_press(adv: i8, key: Key) -> i8 {
    match key {
        Key::Up => 1,
        Key::Down => -1i8,
        _ => adv,
    }
}

/// The intent to turn after `key` goes up, where it was `turn` before.
pub open spec fn turn_after_release(turn: i8, key: Key) -> i8 {
    match key {
        Key::Left | Key::Right => 0,
        _ => turn,
    }
}

/// The intent to move after `key` goes up, where it was `adv` before.
pub open spec fn adv_after_release(adv: i8, key: Key) -> i8 {
    match key {
        Key::Up | Key::Down => 0,
        _ => adv,
    }
}

impl InputHandler {
    /// No key is down: neither turn nor move.
    pub fn new() -> (h: Self)
        ensures
            h.turn == 0,
            h.adv == 0,
    {
        InputHandler { turn: 0, adv: 0 }
    }

    /// Whether both intents are -1, 0 or 1.
    pub open spec fn wf(&self) -> bool {
        -1 <= self.turn <= 1 && -1 <= self.adv <= 1
    }

    /// A key goes down. An arrow sets its intent, until the key goes up or
    /// the opposite arrow goes down; any other key changes nothing.
    pub fn key_press(&mut self, args: &Key)
        ensures
            final(self).turn == turn_after_press(old(self).turn, *args),
            final(self).adv == adv_after_press(old(self).adv, *args),
            old(self).wf() ==> final(self).wf(),
    {
        match *args {
            Key::Left => {
                self.turn = -1;
            },
            Key::Right => {
                self.turn = 1;
            },
            Key::Up => {
                self.adv = 1;
            },
            Key::Down => {
                self.adv = -1;
            },
            Key::Other => {},
        }
    }

    /// A key goes up. An arrow clears its intent; any other key changes nothing.
    pub fn key_up(&mut self, args: &Key)
        ensures
            final(self).turn == turn_after_release(old(self).turn, *args),
            final(self).adv == adv_after_release(old(self).adv, *args),
            old(self).wf() ==> final(self).wf(),
    {
        match *args {
            Key::Left => {
                self.turn = 0;
            },
            Key::Right => {
                self.turn = 0;
            },
            Key::Up => {
                self.adv = 0;
            },
            Key::Down => {
                self.adv = 0;
            },
            Key::Other => {},
        }
    }
}

} // verus!
