//! The decisions of the game loop: how the player's controls change with each
//! input event, what the game must do in answer, and what one frame's update
//! steps. The loop around it performs the answers (quitting, reloading the
//! renderer, moving the camera, stepping the vehicles).

use vstd::prelude::*;

verus! {

/// The keys the game reacts to; any other key is `Other`.
#[derive(Clone, Copy, Debug, PartialEq, Eq)]
pub enum Key {
    Escape,
    L,
    P,
    Comma,
    Period,
    W,
    S,
    R,
    A,
    D,
    Other,
}

/// Whether a key went down or up.
#[derive(Clone, Copy, Debug, PartialEq, Eq)]
pub enum KeyState {
    Pressed,
    Released,
}

/// An input event of the window.
#[derive(Clone, Copy, Debug, PartialEq, Eq)]
pub enum Event {
    Keyboard(KeyState, Key),
    Closed,
    Other,
}

/// The player's controls between frames: the turn and pitch of the camera or
/// the throttle (each -1, 0 or 1), whether the game is paused, and the single
/// step asked for while paused (backwards -1 or forwards 1).
#[derive(Clone, Copy, Debug, PartialEq, Eq)]
pub struct Controls {
    pub spin_hor: i8,
    pub spin_ver: i8,
    pub is_paused: bool,
    pub tick: Option<i8>,
}

/// What the game does in answer to an event, besides changing the controls.
#[derive(Clone, Copy, Debug, PartialEq, Eq)]
pub enum Reaction {
    /// Stop the game.
    Quit,
    /// Go on; nothing else to do.
    Continue,
    /// Reload the renderer's shaders.
    ReloadRender,
    /// Leave the pause: put the camera back above the player.
    Resume,
    /// Pause: focus the camera on the player.
    Pause,
    /// Put the player upright and at rest.
    ResetPlayer,
}

/// What one frame's update does.
#[derive(Clone, Copy, Debug, PartialEq, Eq)]
pub enum Step {
    /// Paused: step the player once by the given direction where a step was
    /// asked for, and turn the camera around the player.
    Paused { tick: Option<i8> },
    /// Running: drive the player with the given throttle and step every
    /// vehicle.
    Running { motor: i8 },
}

/// The controls and the answer after `e`, where `has_player` tells whether
/// the game has a player's vehicle. Without one, or on a press of Escape or
/// the window closing, the game quits and the controls stay.
pub open spec fn react_spec(c: Controls, e: Event, has_player: bool) -> (Controls, Reaction) {
    if !has_player {
        (c, Reaction::Quit)
    } else {
        match e {
            Event::Closed => (c, Reaction::Quit),
            Event::Keyboard(KeyState::Pressed, Key::Escape) => (c, Reaction::Quit),
            Event::Keyboard(KeyState::Pressed, Key::L) => (c, Reaction::ReloadRender),
            Event::Keyboard(KeyState::Pressed, Key::P) => if c.is_paused {
                (Controls { is_paused: false, tick: None, ..c }, Reaction::Resume)
            } else {
                (Controls { is_paused: true, tick: None, ..c }, Reaction::Pause)
            },
            Event::Keyboard(KeyState::Pressed, Key::Comma) => (
                Controls { tick: Some(-1i8), ..c },
                Reaction::Continue,
            ),
            Event::Keyboard(KeyState::Pressed, Key::Period) => (
                Controls { tick: Some(1i8), ..c },
                Reaction::Continue,
            ),
            Event::Keyboard(KeyState::Pressed, Key::W) => (
                Controls { spin_ver: 1, ..c },
                Reaction::Continue,
            ),
            Event::Keyboard(KeyState::Pressed, Key::S) => (
                Controls { spin_ver: -1i8, ..c },
                Reaction::Continue,
            ),
            Event::Keyboard(KeyState::Released, Key::W) => (
                Controls { spin_ver: 0, ..c },
                Reaction::Continue,
            ),
            Event::Keyboard(KeyState::Released, Key::S) => (
                Controls { spin_ver: 0, ..c },
                Reaction::Continue,
            ),
            Event::Keyboard(KeyState::Pressed, Key::R) => (c, Reaction::ResetPlayer),
            Event::Keyboard(KeyState::Pressed, Key::A) => (
                Controls { spin_hor: -1i8, ..c },
                Reaction::Continue,
            ),
            Event::Keyboard(KeyState::Pressed, Key::D) => (
                Controls { spin_hor: 1, ..c },
                Reaction::Continue,
            ),
            Event::Keyboard(KeyState::Released, Key::A) => (
                Controls { spin_hor: 0, ..c },
                Reaction::Continue,
            ),
            Event::Keyboard(KeyState::Released, Key::D) => (
                Controls { spin_hor: 0, ..c },
                Reaction::Continue,
            ),
            _ => (c, Reaction::Continue),
        }
    }
}

impl Controls {
    /// Controls at rest: no spin, running, no step asked for.
    pub fn new() -> (r: Self)
        ensures
            r == (Controls { spin_hor: 0, spin_ver: 0, is_paused: false, tick: None }),
    {
        Controls { spin_hor: 0, spin_ver: 0, is_paused: false, tick: None }
    }

    /// Changes the controls for the event `event` and tells what else the
    /// game must do; the game goes on unless the answer is `Quit`.
    pub fn react(&mut self, event: Event, has_player: bool) -> (r: Reaction)
        ensures
            (*final(self), r) == react_spec(*old(self), event, has_player),
    {
        if !has_player {
            return Reaction::Quit;
        }
        match event {
            Event::Closed => Reaction::Quit,
            Event::Keyboard(KeyState::Pressed, Key::Escape) => Reaction::Quit,
            Event::Keyboard(KeyState::Pressed, Key::L) => Reaction::ReloadRender,
            Event::Keyboard(KeyState::Pressed, Key::P) => {
                self.tick = None;
                if self.is_paused {
                    self.is_paused = false;
                    Reaction::Resume
                } else {
                    self.is_paused = true;
                    Reaction::Pause
                }
            },
            Event::Keyboard(KeyState::Pressed, Key::Comma) => {
                self.tick = Some(-1);
                Reaction::Continue
            },
            Event::Keyboard(KeyState::Pressed, Key::Period) => {
                self.tick = Some(1);
                Reaction::Continue
            },
            Event::Keyboard(KeyState::Pressed, Key::W) => {
                self.spin_ver = 1;
                Reaction::Continue
            },
            Event::Keyboard(KeyState::Pressed, Key::S) => {
                self.spin_ver = -1;
                Reaction::Continue
            },
            Event::Keyboard(KeyState::Released, Key::W)
            | Event::Keyboard(KeyState::Released, Key::S) => {
                self.spin_ver = 0;
                Reaction::Continue
            },
            Event::Keyboard(KeyState::Pressed, Key::R) => Reaction::ResetPlayer,
            Event::Keyboard(KeyState::Pressed, Key::A) => {
                self.spin_hor = -1;
                Reaction::Continue
            },
            Event::Keyboard(KeyState::Pressed, Key::D) => {
                self.spin_hor = 1;
                Reaction::Continue
            },
            Event::Keyboard(KeyState::Released, Key::A)
            | Event::Keyboard(KeyState::Released, Key::D) => {
                self.spin_hor = 0;
                Reaction::Continue
            },
            _ => Reaction::Continue,
        }
    }

    /// What this frame's update does: while paused, the step asked for (which
    /// is then used up); while running, the throttle, which is the pitch
    /// control.
    pub fn update(&mut self) -> (r: Step)
        ensures
            old(self).is_paused ==> r == (Step::Paused { tick: old(self).tick })
                && *final(self) == (Controls { tick: None, ..*old(self) }),
            !old(self).is_paused ==> r == (Step::Running { motor: old(self).spin_ver })
                && *final(self) == *old(self),
    {
        if self.is_paused {
            let tick = self.tick.take();
            Step::Paused { tick }
        } else {
            Step::Running { motor: self.spin_ver }
        }
    }
}

/// A game that is paused and gets `P` goes on running, and one that runs and
/// gets `P` pauses: the pause key toggles the pause and clears the step asked
/// for, and two presses give back the controls but for that step.
pub proof fn lemma_pause_toggles(c: Controls)
    ensures
        react_spec(c, Event::Keyboard(KeyState::Pressed, Key::P), true).0.is_paused == !c.is_paused,
        react_spec(
            react_spec(c, Event::Keyboard(KeyState::Pressed, Key::P), true).0,
            Event::Keyboard(KeyState::Pressed, Key::P),
            true,
        ).0 == (Controls { tick: None, ..c }),
{
}

/// Whatever the event, the spins stay within -1, 0 and 1 and a step asked for
/// is -1 or 1, where they were so before.
pub proof fn lemma_controls_in_range(c: Controls, e: Event, has_player: bool)
    requires
        -1 <= c.spin_hor <= 1,
        -1 <= c.spin_ver <= 1,
        c.tick is Some ==> c.tick.unwrap() == -1i8 || c.tick.unwrap() == 1i8,
    ensures
        -1 <= react_spec(c, e, has_player).0.spin_hor <= 1,
        -1 <= react_spec(c, e, has_player).0.spin_ver <= 1,
        react_spec(c, e, has_player).0.tick is Some ==> react_spec(c, e, has_player).0.tick.unwrap()
            == -1i8 || react_spec(c, e, has_player).0.tick.unwrap() == 1i8,
{
}

/// Letting go of W or S stops the pitch or throttle, and letting go of A or
/// D stops the turn, whatever was held before and whether or not the game is
/// paused; nothing else of the controls changes and the game goes on.
pub proof fn lemma_release_stops(c: Controls)
    ensures
        react_spec(c, Event::Keyboard(KeyState::Released, Key::W), true) == (
            Controls { spin_ver: 0, ..c },
            Reaction::Continue,
        ),
        react_spec(c, Event::Keyboard(KeyState::Released, Key::S), true) == (
            Controls { spin_ver: 0, ..c },
            Reaction::Continue,
        ),
        react_spec(c, Event::Keyboard(KeyState::Released, Key::A), true) == (
            Controls { spin_hor: 0, ..c },
            Reaction::Continue,
        ),
        react_spec(c, Event::Keyboard(KeyState::Released, Key::D), true) == (
            Controls { spin_hor: 0, ..c },
            Reaction::Continue,
        ),
{
}

/// Holding W throttles forwards and S backwards, A turns one way and D the
/// other; nothing else of the controls changes and the game goes on.
pub proof fn lemma_press_spins(c: Controls)
    ensures
        react_spec(c, Event::Keyboard(KeyState::Pressed, Key::W), true) == (
            Controls { spin_ver: 1, ..c },
            Reaction::Continue,
        ),
        react_spec(c, Event::Keyboard(KeyState::Pressed, Key::S), true) == (
            Controls { spin_ver: -1i8, ..c },
            Reaction::Continue,
        ),
        react_spec(c, Event::Keyboard(KeyState::Pressed, Key::A), true) == (
            Controls { spin_hor: -1i8, ..c },
            Reaction::Continue,
        ),
        react_spec(c, Event::Keyboard(KeyState::Pressed, Key::D), true) == (
            Controls { spin_hor: 1, ..c },
            Reaction::Continue,
        ),
{
}

/// Pressing then releasing a throttle key leaves the running game with no
/// throttle: a press of W or S followed by its release gives the controls
/// before the press with the pitch stopped.
pub proof fn lemma_press_release(c: Controls, k: Key)
    requires
        k == Key::W || k == Key::S,
    ensures
        react_spec(
            react_spec(c, Event::Keyboard(KeyState::Pressed, k), true).0,
            Event::Keyboard(KeyState::Released, k),
            true,
        ).0 == (Controls { spin_ver: 0, ..c }),
{
}

/// Comma asks for a step backwards and Period for a step forwards; L asks
/// for the renderer to be reloaded and R for the player to be reset, the
/// controls unchanged; Escape and closing the window quit, as does any event
/// when there is no player, the controls unchanged.
pub proof fn lemma_other_keys(c: Controls, e: Event)
    ensures
        react_spec(c, Event::Keyboard(KeyState::Pressed, Key::Comma), true) == (
            Controls { tick: Some(-1i8), ..c },
            Reaction::Continue,
        ),
        react_spec(c, Event::Keyboard(KeyState::Pressed, Key::Period), true) == (
            Controls { tick: Some(1i8), ..c },
            Reaction::Continue,
        ),
        react_spec(c, Event::Keyboard(KeyState::Pressed, Key::L), true) == (
            c,
            Reaction::ReloadRender,
        ),
        react_spec(c, Event::Keyboard(KeyState::Pressed, Key::R), true) == (
            c,
            Reaction::ResetPlayer,
        ),
        react_spec(c, Event::Keyboard(KeyState::Pressed, Key::Escape), true) == (c, Reaction::Quit),
        react_spec(c, Event::Closed, true) == (c, Reaction::Quit),
        react_spec(c, e, false) == (c, Reaction::Quit),
        react_spec(c, Event::Other, true) == (c, Reaction::Continue),
{
}

} // verus!
