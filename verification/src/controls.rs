//! What keys, buttons, clicks and touches mean.
use vstd::prelude::*;

use crate::block::{Block, PLACEABLE};
use crate::input;
use crate::input::{Action, Key, KeySet};
use crate::text;
use crate::text::{chars_of, parse_number, same_text, slice_of};

verus! {

/// Slots of the hotbar.
pub const HOTBAR_SLOTS: usize = 9;

/// The key of a key code.
pub open spec fn key_of(code: Seq<char>) -> Option<Key> {
    if code == "KeyW"@ {
        Some(Key::W)
    } else if code == "KeyA"@ {
        Some(Key::A)
    } else if code == "KeyS"@ {
        Some(Key::S)
    } else if code == "KeyD"@ {
        Some(Key::D)
    } else if code == "Space"@ {
        Some(Key::Space)
    } else if code == "ShiftLeft"@ {
        Some(Key::ShiftLeft)
    } else if code == "Digit0"@ {
        Some(Key::Key0)
    } else if code == "KeyF"@ {
        Some(Key::F)
    } else if code == "KeyE"@ {
        Some(Key::E)
    } else if code == "KeyQ"@ {
        Some(Key::Q)
    } else if code == "KeyN"@ {
        Some(Key::KeyN)
    } else if code == "KeyC"@ {
        Some(Key::KeyC)
    } else if code == "KeyI"@ {
        Some(Key::KeyI)
    } else if code == "KeyU"@ {
        Some(Key::KeyU)
    } else if code == "BracketLeft"@ {
        Some(Key::BracketLeft)
    } else if code == "BracketRight"@ {
        Some(Key::BracketRight)
    } else {
        None
    }
}

/// The key of a key code.
pub fn key_from_code(code: &str) -> (k: Option<Key>)
    ensures
        k == key_of(code@),
{
    if same_text(code, "KeyW") {
        Some(Key::W)
    } else if same_text(code, "KeyA") {
        Some(Key::A)
    } else if same_text(code, "KeyS") {
        Some(Key::S)
    } else if same_text(code, "KeyD") {
        Some(Key::D)
    } else if same_text(code, "Space") {
        Some(Key::Space)
    } else if same_text(code, "ShiftLeft") {
        Some(Key::ShiftLeft)
    } else if same_text(code, "Digit0") {
        Some(Key::Key0)
    } else if same_text(code, "KeyF") {
        Some(Key::F)
    } else if same_text(code, "KeyE") {
        Some(Key::E)
    } else if same_text(code, "KeyQ") {
        Some(Key::Q)
    } else if same_text(code, "KeyN") {
        Some(Key::KeyN)
    } else if same_text(code, "KeyC") {
        Some(Key::KeyC)
    } else if same_text(code, "KeyI") {
        Some(Key::KeyI)
    } else if same_text(code, "KeyU") {
        Some(Key::KeyU)
    } else if same_text(code, "BracketLeft") {
        Some(Key::BracketLeft)
    } else if same_text(code, "BracketRight") {
        Some(Key::BracketRight)
    } else {
        None
    }
}

/// The slot that a digit key selects.
pub open spec fn slot_of(code: Seq<char>) -> Option<int> {
    if text::begins(code, "Digit"@) {
        match text::number_of(
            code.subrange("Digit"@.len() as int, code.len() as int),
            usize::MAX as int,
        ) {
            Ok(d) => if 1 <= d <= HOTBAR_SLOTS {
                Some(d - 1)
            } else {
                None
            },
            Err(_) => None,
        }
    } else {
        None
    }
}

/// The slot that a digit key selects.
pub fn slot_from_code(code: &str) -> (r: Option<usize>)
    ensures
        match r {
            Some(i) => slot_of(code@) == Some(i as int) && i < HOTBAR_SLOTS,
            None => slot_of(code@) is None,
        },
{
    let c = chars_of(code);
    let p = chars_of("Digit");
    if !text::starts_with(c.as_slice(), p.as_slice()) {
        return None;
    }
    let rest = slice_of(c.as_slice(), p.len(), c.len());
    match parse_number(rest.as_slice(), usize::MAX as u64) {
        Ok(d) => {
            if d >= 1 && d <= HOTBAR_SLOTS as u64 {
                Some(d as usize - 1)
            } else {
                None
            }
        },
        Err(_) => None,
    }
}

/// The action of a key that stands for one. Keys that switch something do so once,
/// however long they are held.
pub open spec fn action_of(k: Key, repeat: bool) -> Option<Action> {
    match k {
        Key::F => if repeat {
            None
        } else {
            Some(Action::ToggleFly)
        },
        Key::E => Some(Action::FlyFaster),
        Key::Q => Some(Action::FlySlower),
        Key::KeyN => if repeat {
            None
        } else {
            Some(Action::NpcLoad)
        },
        Key::KeyC => if repeat {
            None
        } else {
            Some(Action::NpcClear)
        },
        Key::KeyI => Some(Action::NpcCountUp),
        Key::KeyU => Some(Action::NpcCountDown),
        Key::BracketLeft => Some(Action::NpcSpacingDown),
        Key::BracketRight => Some(Action::NpcSpacingUp),
        _ => None,
    }
}

fn action_for(k: Key, repeat: bool) -> (a: Option<Action>)
    ensures
        a == action_of(k, repeat),
{
    match k {
        Key::F => if repeat {
            None
        } else {
            Some(Action::ToggleFly)
        },
        Key::E => Some(Action::FlyFaster),
        Key::Q => Some(Action::FlySlower),
        Key::KeyN => if repeat {
            None
        } else {
            Some(Action::NpcLoad)
        },
        Key::KeyC => if repeat {
            None
        } else {
            Some(Action::NpcClear)
        },
        Key::KeyI => Some(Action::NpcCountUp),
        Key::KeyU => Some(Action::NpcCountDown),
        Key::BracketLeft => Some(Action::NpcSpacingDown),
        Key::BracketRight => Some(Action::NpcSpacingUp),
        _ => None,
    }
}

/// The buttons of a touch screen.
#[derive(Clone, Copy, PartialEq, Eq, Structural, Debug)]
pub enum TouchButton {
    Jump,
    Fly,
    Break,
    Place,
}

/// What controls say.
#[verifier::ext_equal]
pub struct ControlsView {
    /// The keys that are held, as a mask.
    pub keys: u32,
    /// What waits to be done.
    pub actions: Seq<Action>,
    /// The selected slot.
    pub slot: int,
    /// Whether the game has the pointer, or was tapped.
    pub playing: bool,
    /// Whether the screen is touched.
    pub touch: bool,
    /// The aim of the last frame: yaw, pitch.
    pub aim: (u32, u32),
    /// The touch stick.
    pub stick: (u32, u32),
}

impl ControlsView {
    /// The block to place.
    pub open spec fn block(self) -> Block {
        PLACEABLE@[self.slot]
    }

    /// With one thing more to do.
    pub open spec fn with_action(self, a: Action) -> ControlsView {
        ControlsView { actions: self.actions.push(a), ..self }
    }

    /// With a key held.
    pub open spec fn with_key(self, k: Key) -> ControlsView {
        ControlsView { keys: self.keys | (1u32 << k.place()), ..self }
    }

    /// With a key let go.
    pub open spec fn without_key(self, k: Key) -> ControlsView {
        ControlsView { keys: self.keys & !(1u32 << k.place()), ..self }
    }

    /// With the block under the crosshair to break.
    pub open spec fn breaking(self) -> ControlsView {
        self.with_action(Action::Break { yaw: self.aim.0, pitch: self.aim.1 })
    }

    /// With the selected block to place.
    pub open spec fn placing(self) -> ControlsView {
        self.with_action(
            Action::Place { yaw: self.aim.0, pitch: self.aim.1, block: self.block().id() },
        )
    }

    /// After a key went down, and whether it meant anything. Keys typed into a field
    /// mean nothing.
    pub open spec fn pressed(self, code: Seq<char>, repeat: bool, typing: bool) -> (
        ControlsView,
        bool,
    ) {
        if typing {
            (self, false)
        } else if !repeat && slot_of(code) is Some {
            (ControlsView { slot: slot_of(code)->Some_0, ..self }, true)
        } else {
            match key_of(code) {
                None => (self, false),
                Some(k) => match action_of(k, repeat) {
                    Some(a) => (self.with_action(a), true),
                    None => (self.with_key(k), true),
                },
            }
        }
    }

    /// After the slot next to the selected one was selected.
    pub open spec fn cycled(self, forward: bool) -> ControlsView {
        let n = HOTBAR_SLOTS as int;
        ControlsView {
            slot: if forward {
                (self.slot + 1) % n
            } else {
                (self.slot + n - 1) % n
            },
            ..self
        }
    }

    /// With nothing held.
    pub open spec fn released(self) -> ControlsView {
        ControlsView { keys: 0, stick: (0, 0), ..self }
    }

    /// After a touch button went down.
    pub open spec fn touched(self, b: TouchButton) -> ControlsView {
        match b {
            TouchButton::Jump => self.with_key(Key::Space),
            TouchButton::Fly => self.with_action(Action::ToggleFly),
            TouchButton::Break => self.breaking(),
            TouchButton::Place => self.placing(),
        }
    }
}

/// Everything that is pressed, held and selected.
pub struct Controls {
    keys: KeySet,
    actions: Vec<Action>,
    slot: usize,
    playing: bool,
    touch: bool,
    aim_yaw: u32,
    aim_pitch: u32,
    stick_x: u32,
    stick_y: u32,
}

impl View for Controls {
    type V = ControlsView;

    closed spec fn view(&self) -> ControlsView {
        ControlsView {
            keys: self.keys.spec_bits(),
            actions: self.actions@,
            slot: self.slot as int,
            playing: self.playing,
            touch: self.touch,
            aim: (self.aim_yaw, self.aim_pitch),
            stick: (self.stick_x, self.stick_y),
        }
    }
}

impl Controls {
    /// Whether a slot that exists is selected.
    pub closed spec fn wf(self) -> bool {
        self.slot < HOTBAR_SLOTS
    }

    /// Nothing is pressed, held or to be done, and the first slot is selected.
    pub fn new(touch: bool) -> (c: Controls)
        ensures
            c.wf(),
            c@ == (ControlsView {
                keys: 0,
                actions: Seq::empty(),
                slot: 0,
                playing: false,
                touch,
                aim: (0, 0),
                stick: (0, 0),
            }),
    {
        Controls {
            keys: KeySet::from_bits(0),
            actions: Vec::new(),
            slot: 0,
            playing: false,
            touch,
            aim_yaw: 0,
            aim_pitch: 0,
            stick_x: 0,
            stick_y: 0,
        }
    }

    /// The keys that are held.
    pub fn keys(&self) -> (k: KeySet)
        ensures
            k.spec_bits() == self@.keys,
    {
        self.keys
    }

    /// The touch stick.
    pub fn stick(&self) -> (s: (u32, u32))
        ensures
            s == self@.stick,
    {
        (self.stick_x, self.stick_y)
    }

    /// Whether the game has the pointer, or was tapped.
    pub fn is_playing(&self) -> (r: bool)
        ensures
            r == self@.playing,
    {
        self.playing
    }

    /// The selected slot.
    pub fn selected_slot(&self) -> (i: usize)
        requires
            self.wf(),
        ensures
            i == self@.slot,
            i < HOTBAR_SLOTS,
    {
        self.slot
    }

    /// The block to place.
    pub fn selected_block(&self) -> (b: Block)
        requires
            self.wf(),
        ensures
            b == self@.block(),
    {
        PLACEABLE[self.slot]
    }

    /// Aims as the last frame was drawn.
    pub fn aim(&mut self, yaw: u32, pitch: u32)
        requires
            old(self).wf(),
        ensures
            final(self).wf(),
            final(self)@ == (ControlsView { aim: (yaw, pitch), ..old(self)@ }),
    {
        self.aim_yaw = yaw;
        self.aim_pitch = pitch;
    }

    /// Selects a slot, where it exists. Returns whether another one is selected now.
    pub fn select_slot(&mut self, i: usize) -> (r: bool)
        requires
            old(self).wf(),
        ensures
            final(self).wf(),
            r == (i < HOTBAR_SLOTS && i != old(self)@.slot),
            final(self)@ == (if i < HOTBAR_SLOTS {
                ControlsView { slot: i as int, ..old(self)@ }
            } else {
                old(self)@
            }),
    {
        if i >= HOTBAR_SLOTS || i == self.slot {
            return false;
        }
        self.slot = i;
        true
    }

    /// A key goes down. Returns whether it means anything.
    pub fn key_down(&mut self, code: &str, repeat: bool, typing: bool) -> (r: bool)
        requires
            old(self).wf(),
        ensures
            final(self).wf(),
            (final(self)@, r) == old(self)@.pressed(code@, repeat, typing),
    {
        if typing {
            return false;
        }
        if !repeat {
            match slot_from_code(code) {
                Some(i) => {
                    let _ = self.select_slot(i);
                    return true;
                },
                None => {},
            }
        }
        match key_from_code(code) {
            None => false,
            Some(k) => {
                match action_for(k, repeat) {
                    Some(a) => self.actions.push(a),
                    None => self.keys.insert(k),
                }
                true
            },
        }
    }

    /// A key comes up.
    pub fn key_up(&mut self, code: &str, typing: bool)
        requires
            old(self).wf(),
        ensures
            final(self).wf(),
            final(self)@ == (match key_of(code@) {
                Some(k) => if typing {
                    old(self)@
                } else {
                    old(self)@.without_key(k)
                },
                None => old(self)@,
            }),
    {
        if typing {
            return;
        }
        match key_from_code(code) {
            Some(k) => self.keys.remove(k),
            None => {},
        }
    }

    fn push_break(&mut self)
        requires
            old(self).wf(),
        ensures
            final(self).wf(),
            final(self)@ == old(self)@.breaking(),
    {
        self.actions.push(Action::Break { yaw: self.aim_yaw, pitch: self.aim_pitch });
    }

    fn push_place(&mut self)
        requires
            old(self).wf(),
        ensures
            final(self).wf(),
            final(self)@ == old(self)@.placing(),
    {
        let block: u8 = self.selected_block().as_u8();
        self.actions.push(Action::Place { yaw: self.aim_yaw, pitch: self.aim_pitch, block });
    }

    /// A mouse button goes down: the first one breaks, the third one places.
    pub fn mouse_down(&mut self, button: i16)
        requires
            old(self).wf(),
        ensures
            final(self).wf(),
            final(self)@ == (if !old(self)@.playing {
                old(self)@
            } else if button == 0 {
                old(self)@.breaking()
            } else if button == 2 {
                old(self)@.placing()
            } else {
                old(self)@
            }),
    {
        if !self.playing {
            return;
        }
        match button {
            0 => self.push_break(),
            2 => self.push_place(),
            _ => {},
        }
    }

    /// The wheel turns. Returns whether another slot is selected now.
    pub fn wheel(&mut self, forward: bool, typing: bool) -> (r: bool)
        requires
            old(self).wf(),
        ensures
            final(self).wf(),
            r == !typing,
            final(self)@ == (if typing {
                old(self)@
            } else {
                old(self)@.cycled(forward)
            }),
    {
        if typing {
            return false;
        }
        let next: usize = if forward {
            (self.slot + 1) % HOTBAR_SLOTS
        } else {
            (self.slot + HOTBAR_SLOTS - 1) % HOTBAR_SLOTS
        };
        self.select_slot(next)
    }

    /// Whether a click asks for the pointer. Clicks on the options do not, nor does
    /// anything on a touch screen.
    pub fn wants_pointer(&self, in_options: bool) -> (r: bool)
        ensures
            r == (!in_options && !self@.touch && !self@.playing),
    {
        !in_options && !self.touch && !self.playing
    }

    /// The game got the pointer, or lost it. Returns whether that counts: it does not
    /// on a touch screen.
    pub fn pointer_changed(&mut self, locked: bool) -> (r: bool)
        requires
            old(self).wf(),
        ensures
            final(self).wf(),
            r == !old(self)@.touch,
            final(self)@ == (if old(self)@.touch {
                old(self)@
            } else if locked {
                ControlsView { playing: true, ..old(self)@ }
            } else {
                ControlsView { playing: false, keys: 0, ..old(self)@ }
            }),
    {
        if self.touch {
            return false;
        }
        self.playing = locked;
        if !locked {
            self.keys = KeySet::from_bits(0);
        }
        true
    }

    /// The start screen is tapped. Returns whether the game begins.
    pub fn tap(&mut self, in_options: bool) -> (r: bool)
        requires
            old(self).wf(),
        ensures
            final(self).wf(),
            r == (old(self)@.touch && !old(self)@.playing && !in_options),
            final(self)@ == (if r {
                ControlsView { playing: true, ..old(self)@.released() }
            } else {
                old(self)@
            }),
    {
        if !self.touch || self.playing || in_options {
            return false;
        }
        self.playing = true;
        self.keys = KeySet::from_bits(0);
        self.stick_x = 0;
        self.stick_y = 0;
        true
    }

    /// The menu button is touched. Returns whether the start screen shows again.
    pub fn menu(&mut self) -> (r: bool)
        requires
            old(self).wf(),
        ensures
            final(self).wf(),
            r == old(self)@.touch,
            final(self)@ == (if r {
                ControlsView { playing: false, ..old(self)@.released() }
            } else {
                old(self)@
            }),
    {
        if !self.touch {
            return false;
        }
        self.playing = false;
        self.keys = KeySet::from_bits(0);
        self.stick_x = 0;
        self.stick_y = 0;
        true
    }

    /// A touch button goes down. Returns whether it means anything.
    pub fn button_down(&mut self, b: TouchButton) -> (r: bool)
        requires
            old(self).wf(),
        ensures
            final(self).wf(),
            r == old(self)@.touch,
            final(self)@ == (if r {
                old(self)@.touched(b)
            } else {
                old(self)@
            }),
    {
        if !self.touch {
            return false;
        }
        match b {
            TouchButton::Jump => self.keys.insert(Key::Space),
            TouchButton::Fly => self.actions.push(Action::ToggleFly),
            TouchButton::Break => self.push_break(),
            TouchButton::Place => self.push_place(),
        }
        true
    }

    /// A touch button comes up.
    pub fn button_up(&mut self, b: TouchButton)
        requires
            old(self).wf(),
        ensures
            final(self).wf(),
            final(self)@ == (if old(self)@.touch && b == TouchButton::Jump {
                old(self)@.without_key(Key::Space)
            } else {
                old(self)@
            }),
    {
        if self.touch && matches!(b, TouchButton::Jump) {
            self.keys.remove(Key::Space);
        }
    }

    /// Moves the touch stick.
    pub fn set_stick(&mut self, x: u32, y: u32)
        requires
            old(self).wf(),
        ensures
            final(self).wf(),
            final(self)@ == (ControlsView { stick: (x, y), ..old(self)@ }),
    {
        self.stick_x = x;
        self.stick_y = y;
    }

    /// Lets go of every key.
    pub fn clear_keys(&mut self)
        requires
            old(self).wf(),
        ensures
            final(self).wf(),
            final(self)@ == (ControlsView { keys: 0, ..old(self)@ }),
    {
        self.keys = KeySet::from_bits(0);
    }

    /// Adds something to do.
    pub fn push_action(&mut self, a: Action)
        requires
            old(self).wf(),
        ensures
            final(self).wf(),
            final(self)@ == old(self)@.with_action(a),
    {
        self.actions.push(a);
    }

    /// What waits to be done, which is taken.
    pub fn take_actions(&mut self) -> (v: Vec<Action>)
        requires
            old(self).wf(),
        ensures
            final(self).wf(),
            v@ == old(self)@.actions,
            final(self)@ == (ControlsView { actions: Seq::empty(), ..old(self)@ }),
    {
        let mut v: Vec<Action> = Vec::new();
        std::mem::swap(&mut v, &mut self.actions);
        v
    }
}

// ---- Touches -----------------------------------------------------------------------

/// The first touch of an event.
pub fn first_touch(touches: &[i32]) -> (r: Option<i32>)
    ensures
        r == (if touches@.len() > 0 {
            Some(touches@[0])
        } else {
            None
        }),
{
    if touches.len() > 0 {
        Some(touches[0])
    } else {
        None
    }
}

/// Where a touch is among those of an event.
pub fn find_touch(touches: &[i32], id: i32) -> (r: Option<usize>)
    ensures
        match r {
            Some(i) => i < touches@.len() && touches@[i as int] == id && forall|k: int|
                0 <= k < i ==> touches@[k] != id,
            None => !touches@.contains(id),
        },
{
    let mut i: usize = 0;
    while i < touches.len()
        invariant
            i <= touches@.len(),
            forall|k: int| 0 <= k < i ==> touches@[k] != id,
        decreases touches@.len() - i,
    {
        if touches[i] == id {
            return Some(i);
        }
        i = i + 1;
    }
    None
}

/// A pad, which follows one touch from its start to its end.
#[derive(Clone, Copy, PartialEq, Eq, Structural, Debug)]
pub struct Pad {
    pub touch: Option<i32>,
}

impl Pad {
    /// Touches begin on the pad. Returns whether it follows one of them now.
    pub fn start(&mut self, enabled: bool, touches: &[i32]) -> (r: bool)
        ensures
            r == (enabled && old(self).touch is None && touches@.len() > 0),
            final(self).touch == (if r {
                Some(touches@[0])
            } else {
                old(self).touch
            }),
    {
        if !enabled || self.touch.is_some() {
            return false;
        }
        match first_touch(touches) {
            Some(id) => {
                self.touch = Some(id);
                true
            },
            None => false,
        }
    }

    /// Which of the touches that moved is the one that the pad follows.
    pub fn moved(&self, touches: &[i32]) -> (r: Option<usize>)
        ensures
            match r {
                Some(i) => i < touches@.len() && self.touch == Some(touches@[i as int]),
                None => self.touch is None || !touches@.contains(self.touch->Some_0),
            },
    {
        match self.touch {
            Some(id) => find_touch(touches, id),
            None => None,
        }
    }

    /// Touches end. Returns whether the one that the pad follows is among them.
    pub fn end(&mut self, touches: &[i32]) -> (r: bool)
        ensures
            r == (old(self).touch is Some && touches@.contains(old(self).touch->Some_0)),
            final(self).touch == (if r {
                None
            } else {
                old(self).touch
            }),
    {
        match self.moved(touches) {
            Some(i) => {
                assert(touches@[i as int] == self.touch->Some_0);
                self.touch = None;
                true
            },
            None => false,
        }
    }
}

// ---- Laws --------------------------------------------------------------------------

/// Turning the wheel forward and back selects the slot that was selected.
pub proof fn the_wheel_turns_back(c: ControlsView)
    requires
        0 <= c.slot < HOTBAR_SLOTS,
    ensures
        c.cycled(true).cycled(false) == c,
        c.cycled(false).cycled(true) == c,
        0 <= c.cycled(true).slot < HOTBAR_SLOTS,
        0 <= c.cycled(false).slot < HOTBAR_SLOTS,
{
    assert(c.cycled(true).cycled(false) =~= c);
    assert(c.cycled(false).cycled(true) =~= c);
}

/// Whatever is selected can be placed.
pub proof fn selected_blocks_can_be_placed(c: ControlsView)
    requires
        0 <= c.slot < HOTBAR_SLOTS,
    ensures
        c.block().spec_is_placeable(),
{
    crate::block::placeable_lists_the_placeable_blocks();
    assert(PLACEABLE@.contains(PLACEABLE@[c.slot]));
}

/// A key that came up is not held, whatever else is.
pub proof fn released_keys_are_not_held(c: ControlsView, k: Key)
    ensures
        !input::bit_set(c.without_key(k).keys, k.place()),
        input::bit_set(c.with_key(k).keys, k.place()),
{
    let m = c.keys;
    let p = k.place();
    assert(p < 32);
    assert((m & !(1u32 << p)) & (1u32 << p) == 0) by (bit_vector)
        requires
            p < 32,
    ;
    assert((m | (1u32 << p)) & (1u32 << p) != 0) by (bit_vector)
        requires
            p < 32,
    ;
}

/// What is typed into a field never reaches the game.
pub proof fn typing_is_not_playing(c: ControlsView, code: Seq<char>, repeat: bool)
    ensures
        c.pressed(code, repeat, true) == (c, false),
{
}

} // verus!
