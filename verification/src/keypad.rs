//! State of the sixteen-key CHIP-8 keypad, driven by eight push buttons
//! whose mapping onto keys is chosen per game.
use vstd::prelude::*;

verus! {

/// Number of keys on the CHIP-8 keypad.
pub const KEYPAD_NUM_KEYS: usize = 16;

/// Number of push buttons on the board.
pub const BUTTON_COUNT: usize = 8;

/// Whether a key is held down.
#[derive(Copy, Clone, PartialEq, Eq, Structural)]
pub enum KeyState {
    PRESSED,
    RELEASED,
}

/// The reading of the last button among the first `n` that is mapped to
/// `key` and could be read, if any: it decides the key's new state.
pub open spec fn last_reading(keymap: Seq<u8>, readings: Seq<Option<bool>>, key: int, n: int) -> Option<bool>
    decreases n,
{
    if n <= 0 {
        None
    } else if keymap[n - 1] as int == key && readings[n - 1] is Some {
        readings[n - 1]
    } else {
        last_reading(keymap, readings, key, n - 1)
    }
}

/// The state of a key after a reading: pressed for a low (active) button,
/// released for a high one, unchanged when nothing could be read.
pub open spec fn key_after(before: KeyState, reading: Option<bool>) -> KeyState {
    match reading {
        Some(true) => KeyState::PRESSED,
        Some(false) => KeyState::RELEASED,
        None => before,
    }
}

/// The key states after one sampling of the buttons.
pub open spec fn keys_after_check(keys: Seq<KeyState>, keymap: Seq<u8>, readings: Seq<Option<bool>>) -> Seq<KeyState> {
    Seq::new(16, |k: int| key_after(keys[k], last_reading(keymap, readings, k, 8)))
}

/// Whether no key is pressed in `keys`.
pub open spec fn none_pressed(keys: Seq<KeyState>) -> bool {
    forall|k: int| 0 <= k < keys.len() ==> keys[k] != KeyState::PRESSED
}

/// The keypad: the state of each key and the key each button stands for.
pub struct Keypad {
    keys: [KeyState; KEYPAD_NUM_KEYS],
    keymap: [u8; BUTTON_COUNT],
}

impl Keypad {
    /// The state of each of the sixteen keys.
    pub closed spec fn keys_view(&self) -> Seq<KeyState> {
        self.keys@
    }

    /// For each button, the key it stands for.
    pub closed spec fn keymap_view(&self) -> Seq<u8> {
        self.keymap@
    }

    /// Sixteen keys and eight buttons.
    pub open spec fn wf(&self) -> bool {
        &&& self.keys_view().len() == 16
        &&& self.keymap_view().len() == 8
    }

    /// A keypad with every key released and button `i` standing for key
    /// `keymap[i]`.
    pub fn new(keymap: [u8; BUTTON_COUNT]) -> (k: Keypad)
        ensures
            k.wf(),
            k.keys_view() == Seq::new(16, |i: int| KeyState::RELEASED),
            k.keymap_view() == keymap@,
    {
        let k = Keypad { keys: [KeyState::RELEASED; KEYPAD_NUM_KEYS], keymap };
        assert(k.keys_view() =~= Seq::new(16, |i: int| KeyState::RELEASED));
        k
    }

    /// Applies one sampling of the buttons, in button order: `Some(true)` for
    /// a button read low (held), `Some(false)` for one read high, `None` for
    /// one that could not be read. Each key mapped by a button that was read
    /// takes the state given by the last such button; other keys keep theirs.
    pub fn check(&mut self, buttons: [Option<bool>; BUTTON_COUNT])
        requires
            old(self).wf(),
            forall|i: int| 0 <= i < 8 && buttons@[i] is Some ==> old(self).keymap_view()[i] < 16,
        ensures
            final(self).wf(),
            final(self).keymap_view() == old(self).keymap_view(),
            final(self).keys_view() == keys_after_check(old(self).keys_view(), old(self).keymap_view(), buttons@),
            forall|i: int|
                0 <= i < 8 && #[trigger] buttons@[i] is Some && (forall|j: int|
                    i < j < 8 && #[trigger] buttons@[j] is Some ==> old(self).keymap_view()[j]
                        != old(self).keymap_view()[i]) ==> final(self).keys_view()[old(self).keymap_view()[i] as int]
                    == (if buttons@[i] == Some(true) {
                    KeyState::PRESSED
                } else {
                    KeyState::RELEASED
                }),
            forall|k: int|
                0 <= k < 16 && (forall|i: int|
                    0 <= i < 8 && #[trigger] buttons@[i] is Some ==> old(self).keymap_view()[i] as int != k)
                    ==> #[trigger] final(self).keys_view()[k] == old(self).keys_view()[k],
    {
        let ghost old_keys = self.keys@;
        let mut i: usize = 0;
        while i < BUTTON_COUNT
            invariant
                0 <= i <= BUTTON_COUNT,
                old_keys.len() == 16,
                self.keymap@ == old(self).keymap_view(),
                forall|j: int| 0 <= j < 8 && buttons@[j] is Some ==> self.keymap@[j] < 16,
                forall|k: int| 0 <= k < 16 ==> #[trigger] self.keys@[k] == key_after(
                    old_keys[k],
                    last_reading(self.keymap@, buttons@, k, i as int),
                ),
            decreases BUTTON_COUNT - i,
        {
            match buttons[i] {
                Some(true) => self.keys[self.keymap[i] as usize] = KeyState::PRESSED,
                Some(false) => self.keys[self.keymap[i] as usize] = KeyState::RELEASED,
                None => {},
            }
            i = i + 1;
        }
        assert(self.keys@ =~= Seq::new(
            16,
            |k: int| key_after(old_keys[k], last_reading(self.keymap@, buttons@, k, 8)),
        ));
        proof {
            let km = self.keymap@;
            assert forall|i: int|
                0 <= i < 8 && #[trigger] buttons@[i] is Some && (forall|j: int|
                    i < j < 8 && #[trigger] buttons@[j] is Some ==> km[j] != km[i]) implies self.keys@[km[i] as int]
                == (if buttons@[i] == Some(true) {
                KeyState::PRESSED
            } else {
                KeyState::RELEASED
            }) by {
                lemma_button_decides_key(old_keys, km, buttons@, i);
            }
            assert forall|k: int|
                0 <= k < 16 && (forall|i: int| 0 <= i < 8 && #[trigger] buttons@[i] is Some ==> km[i] as int != k)
                implies #[trigger] self.keys@[k] == old_keys[k] by {
                lemma_unmapped_key_unchanged(old_keys, km, buttons@, k);
            }
        }
    }

    /// Whether key `keycode` is held.
    pub fn is_pressed(&self, keycode: u8) -> (pressed: bool)
        requires
            self.wf(),
            keycode < 16,
        ensures
            pressed == (self.keys_view()[keycode as int] == KeyState::PRESSED),
    {
        match self.keys[keycode as usize] {
            KeyState::PRESSED => true,
            KeyState::RELEASED => false,
        }
    }

    /// The lowest held key, or `None` when no key is held.
    pub fn pressed_key(&self) -> (key: Option<u8>)
        requires
            self.wf(),
        ensures
            match key {
                Some(k) => {
                    &&& k < 16
                    &&& self.keys_view()[k as int] == KeyState::PRESSED
                    &&& forall|j: int| 0 <= j < k ==> self.keys_view()[j] != KeyState::PRESSED
                },
                None => none_pressed(self.keys_view()),
            },
    {
        let mut keycode: usize = 0;
        while keycode < KEYPAD_NUM_KEYS
            invariant
                0 <= keycode <= KEYPAD_NUM_KEYS,
                self.wf(),
                forall|j: int| 0 <= j < keycode ==> self.keys_view()[j] != KeyState::PRESSED,
            decreases KEYPAD_NUM_KEYS - keycode,
        {
            match self.keys[keycode] {
                KeyState::PRESSED => {
                    return Some(keycode as u8);
                },
                KeyState::RELEASED => {},
            }
            keycode = keycode + 1;
        }
        None
    }
}

/// Sampling the same button readings twice leaves the keys as sampling them
/// once: the new state of each key depends on the readings alone, or is
/// the old state when no reading concerns the key.
pub proof fn lemma_check_idempotent(keys: Seq<KeyState>, keymap: Seq<u8>, readings: Seq<Option<bool>>)
    requires
        keys.len() == 16,
    ensures
        keys_after_check(keys_after_check(keys, keymap, readings), keymap, readings) == keys_after_check(
            keys,
            keymap,
            readings,
        ),
{
    assert(keys_after_check(keys_after_check(keys, keymap, readings), keymap, readings) =~= keys_after_check(
        keys,
        keymap,
        readings,
    ));
}

/// A key that no readable button is mapped to keeps its state.
pub proof fn lemma_unmapped_key_unchanged(
    keys: Seq<KeyState>,
    keymap: Seq<u8>,
    readings: Seq<Option<bool>>,
    key: int,
)
    requires
        keys.len() == 16,
        keymap.len() == 8,
        0 <= key < 16,
        forall|i: int| 0 <= i < 8 && #[trigger] readings[i] is Some ==> keymap[i] as int != key,
    ensures
        keys_after_check(keys, keymap, readings)[key] == keys[key],
{
    lemma_no_reading_for_unmapped(keymap, readings, key, 8);
}

/// With no readable button mapped to `key` among the first `n`, no reading
/// concerns it.
proof fn lemma_no_reading_for_unmapped(keymap: Seq<u8>, readings: Seq<Option<bool>>, key: int, n: int)
    requires
        0 <= n <= keymap.len(),
        forall|i: int| 0 <= i < n && #[trigger] readings[i] is Some ==> keymap[i] as int != key,
    ensures
        last_reading(keymap, readings, key, n) is None,
    decreases n,
{
    if n > 0 {
        lemma_no_reading_for_unmapped(keymap, readings, key, n - 1);
    }
}

/// The reading of a button that no later readable button shares a key with
/// is the last reading for that key.
proof fn lemma_latest_reading(keymap: Seq<u8>, readings: Seq<Option<bool>>, i: int, n: int)
    requires
        0 <= i < n <= keymap.len(),
        n <= readings.len(),
        readings[i] is Some,
        forall|j: int| i < j < n && #[trigger] readings[j] is Some ==> keymap[j] != keymap[i],
    ensures
        last_reading(keymap, readings, keymap[i] as int, n) == readings[i],
    decreases n,
{
    if n - 1 > i {
        lemma_latest_reading(keymap, readings, i, n - 1);
    }
}

/// Each readable button that no later readable button shares a key with
/// decides its key: held (`Some(true)`) means pressed, up means released.
/// In particular the reading of the last button always decides its key.
pub proof fn lemma_button_decides_key(
    keys: Seq<KeyState>,
    keymap: Seq<u8>,
    readings: Seq<Option<bool>>,
    i: int,
)
    requires
        keys.len() == 16,
        keymap.len() == 8,
        readings.len() == 8,
        0 <= i < 8,
        keymap[i] < 16,
        readings[i] is Some,
        forall|j: int| i < j < 8 && #[trigger] readings[j] is Some ==> keymap[j] != keymap[i],
    ensures
        keys_after_check(keys, keymap, readings)[keymap[i] as int] == (if readings[i] == Some(true) {
            KeyState::PRESSED
        } else {
            KeyState::RELEASED
        }),
{
    lemma_latest_reading(keymap, readings, i, 8);
}

} // verus!
