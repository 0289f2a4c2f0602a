//! What a client sends of its keys and its one-shot actions.
use vstd::prelude::*;

verus! {

/// Keys that matter to movement and actions.
#[derive(Clone, Copy, PartialEq, Eq, Structural, Debug)]
pub enum Key {
    W,
    A,
    S,
    D,
    Space,
    ShiftLeft,
    Key0,
    /// Toggles fly mode.
    F,
    /// Flies faster.
    E,
    /// Flies slower.
    Q,
    /// Spawns the configured load of NPCs.
    KeyN,
    /// Clears all NPCs.
    KeyC,
    /// Doubles the NPC count.
    KeyI,
    /// Halves the NPC count.
    KeyU,
    /// Halves the NPC spacing.
    BracketLeft,
    /// Doubles the NPC spacing.
    BracketRight,
}

/// One-shot actions. Angles are held by their bits.
#[derive(Clone, Copy, PartialEq, Eq, Structural, Debug)]
pub enum Action {
    /// Breaks the targeted block. The aim is that of the moment of the click.
    Break { yaw: u32, pitch: u32 },
    /// Places a block against the targeted face, with the same meaning of the aim.
    Place { yaw: u32, pitch: u32, block: u8 },
    ToggleFly,
    FlyFaster,
    FlySlower,
    /// Spawns the configured load of NPCs, in place of those that are there.
    NpcLoad,
    NpcClear,
    NpcCountUp,
    NpcCountDown,
    NpcSpacingUp,
    NpcSpacingDown,
}

impl Key {
    /// The place of the key in a key mask.
    pub open spec fn place(self) -> u32 {
        match self {
            Key::W => 0,
            Key::A => 1,
            Key::S => 2,
            Key::D => 3,
            Key::Space => 4,
            Key::ShiftLeft => 5,
            Key::Key0 => 6,
            Key::F => 7,
            Key::E => 8,
            Key::Q => 9,
            Key::KeyN => 10,
            Key::KeyC => 11,
            Key::KeyI => 12,
            Key::KeyU => 13,
            Key::BracketLeft => 14,
            Key::BracketRight => 15,
        }
    }
}

/// A set of keys, held as a mask.
#[derive(Clone, Copy, Debug)]
pub struct KeySet {
    bits: u32,
}

/// Whether a bit of a mask is set.
pub open spec fn bit_set(mask: u32, place: u32) -> bool {
    mask & (1u32 << place) != 0
}

impl KeySet {
    /// The mask of the set.
    pub closed spec fn spec_bits(self) -> u32 {
        self.bits
    }

    /// Whether the key is in the set.
    pub open spec fn has(self, k: Key) -> bool {
        bit_set(self.spec_bits(), k.place())
    }

    /// The mask of one key.
    pub fn bit(k: Key) -> (b: u32)
        ensures
            b == 1u32 << k.place(),
    {
        let place: u32 = match k {
            Key::W => 0,
            Key::A => 1,
            Key::S => 2,
            Key::D => 3,
            Key::Space => 4,
            Key::ShiftLeft => 5,
            Key::Key0 => 6,
            Key::F => 7,
            Key::E => 8,
            Key::Q => 9,
            Key::KeyN => 10,
            Key::KeyC => 11,
            Key::KeyI => 12,
            Key::KeyU => 13,
            Key::BracketLeft => 14,
            Key::BracketRight => 15,
        };
        1u32 << place
    }

    pub fn insert(&mut self, k: Key)
        ensures
            final(self).spec_bits() == old(self).spec_bits() | (1u32 << k.place()),
            forall|j: Key| #[trigger] final(self).has(j) == (j == k || old(self).has(j)),
    {
        self.bits = self.bits | Self::bit(k);
        proof {
            let before = old(self).spec_bits();
            let i = k.place();
            assert forall|j: Key| #[trigger] self.has(j) == (j == k || old(self).has(j)) by {
                let p = j.place();
                assert(i == p || i != p);
                assert(((before | (1u32 << i)) & (1u32 << p) != 0) == (i == p || before & (1u32
                    << p) != 0)) by (bit_vector)
                    requires
                        i < 16,
                        p < 16,
                ;
            }
        }
    }

    pub fn remove(&mut self, k: Key)
        ensures
            final(self).spec_bits() == old(self).spec_bits() & !(1u32 << k.place()),
            forall|j: Key| #[trigger] final(self).has(j) == (j != k && old(self).has(j)),
    {
        self.bits = self.bits & !Self::bit(k);
        proof {
            let before = old(self).spec_bits();
            let i = k.place();
            assert forall|j: Key| #[trigger] self.has(j) == (j != k && old(self).has(j)) by {
                let p = j.place();
                assert(((before & !(1u32 << i)) & (1u32 << p) != 0) == (i != p && before & (1u32
                    << p) != 0)) by (bit_vector)
                    requires
                        i < 16,
                        p < 16,
                ;
            }
        }
    }

    pub fn contains(&self, k: Key) -> (r: bool)
        ensures
            r == self.has(k),
    {
        self.bits & Self::bit(k) != 0
    }

    /// The mask, as it goes over the wire.
    pub fn bits(&self) -> (b: u32)
        ensures
            b == self.spec_bits(),
    {
        self.bits
    }

    /// The set of a mask.
    pub fn from_bits(bits: u32) -> (s: KeySet)
        ensures
            s.spec_bits() == bits,
    {
        KeySet { bits }
    }

    /// How far the movement keys push: forward less backward, right less left.
    pub fn axes(&self) -> (r: (i32, i32))
        ensures
            r.0 == pressed(self.has(Key::W)) - pressed(self.has(Key::S)),
            r.1 == pressed(self.has(Key::D)) - pressed(self.has(Key::A)),
    {
        let mut forward: i32 = 0;
        let mut right: i32 = 0;
        if self.contains(Key::W) {
            forward = forward + 1;
        }
        if self.contains(Key::S) {
            forward = forward - 1;
        }
        if self.contains(Key::D) {
            right = right + 1;
        }
        if self.contains(Key::A) {
            right = right - 1;
        }
        (forward, right)
    }
}

pub open spec fn pressed(held: bool) -> int {
    if held {
        1
    } else {
        0
    }
}

impl Default for KeySet {
    fn default() -> (s: KeySet)
        ensures
            s.spec_bits() == 0,
            forall|k: Key| !#[trigger] s.has(k),
    {
        let s = KeySet { bits: 0 };
        assert forall|k: Key| !#[trigger] s.has(k) by {
            let p = k.place();
            assert(0u32 & (1u32 << p) == 0) by (bit_vector);
        }
        s
    }
}

/// A set travels as its mask and arrives as itself.
pub proof fn masks_carry_key_sets(a: KeySet, b: KeySet)
    requires
        a.spec_bits() == b.spec_bits(),
    ensures
        a == b,
        forall|k: Key| a.has(k) == b.has(k),
{
}

/// The input of a moment: the keys that are held, how far the view was turned since
/// the last one, and the touch stick. Numbers that are not whole are held by their
/// bits.
#[derive(Clone, Copy, Debug)]
pub struct Input {
    pub keys: KeySet,
    pub mouse_dx: u32,
    pub mouse_dy: u32,
    /// To the right and forward; both zero where there is no stick.
    pub analog_x: u32,
    pub analog_y: u32,
}

impl Default for Input {
    /// Nothing is held and nothing moves.
    fn default() -> (i: Input)
        ensures
            i.keys.spec_bits() == 0,
            i.mouse_dx == 0,
            i.mouse_dy == 0,
            i.analog_x == 0,
            i.analog_y == 0,
    {
        Input { keys: KeySet::from_bits(0), mouse_dx: 0, mouse_dy: 0, analog_x: 0, analog_y: 0 }
    }
}

} // verus!
