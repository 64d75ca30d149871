//! The keyboard and pointer, as far as the editors listen to them.
use vstd::prelude::*;

verus! {

/// A key.
#[derive(Clone, Copy, Debug, PartialEq, Eq, Structural)]
pub enum KeyCode {
    /// A letter key, by its upper-case letter.
    Letter(char),
    /// A digit key of the main row.
    Digit(u8),
    Escape,
    Delete,
    Backspace,
    ShiftLeft,
    ShiftRight,
}

/// The keys that are held down, and those that went down since the last frame.
#[derive(Debug)]
pub struct Keys {
    pub held: Vec<KeyCode>,
    pub fresh: Vec<KeyCode>,
}

fn among(keys: &Vec<KeyCode>, key: KeyCode) -> (r: bool)
    ensures
        r == keys@.contains(key),
{
    let mut i: usize = 0;
    while i < keys.len()
        invariant
            i <= keys@.len(),
            forall|k: int| 0 <= k < i ==> keys@[k] != key,
        decreases keys@.len() - i,
    {
        if keys[i] == key {
            assert(keys@.contains(key));
            return true;
        }
        i = i + 1;
    }
    false
}

impl Keys {
    /// Whether `key` is held down.
    pub fn pressed(&self, key: KeyCode) -> (r: bool)
        ensures
            r == self.held@.contains(key),
    {
        among(&self.held, key)
    }

    /// Whether `key` went down since the last frame.
    pub fn just_pressed(&self, key: KeyCode) -> (r: bool)
        ensures
            r == self.fresh@.contains(key),
    {
        among(&self.fresh, key)
    }

    /// Whether either shift key is held down.
    pub open spec fn shifted(self) -> bool {
        self.held@.contains(KeyCode::ShiftLeft) || self.held@.contains(KeyCode::ShiftRight)
    }

    pub fn shift(&self) -> (r: bool)
        ensures
            r == self.shifted(),
    {
        self.pressed(KeyCode::ShiftLeft) || self.pressed(KeyCode::ShiftRight)
    }
}

/// Whether a keyboard is there and `key` went down on it.
pub open spec fn went_down(keys: Option<Keys>, key: KeyCode) -> bool {
    keys matches Some(k) && k.fresh@.contains(key)
}

/// How the pointer stands to an element of the user interface.
#[derive(Clone, Copy, Debug, PartialEq, Eq, Structural)]
pub enum Interaction {
    Pressed,
    Hovered,
    Idle,
}

/// Whether the pointer is busy with any element.
pub open spec fn pointer_busy(interactions: Seq<Interaction>) -> bool {
    exists|i: int| 0 <= i < interactions.len() && interactions[i] != Interaction::Idle
}

/// Whether a left click fell on the canvas: the button just went down, and no
/// element of the user interface has the pointer.
pub fn canvas_clicked(just_pressed: Option<bool>, interactions: &Vec<Interaction>) -> (r: bool)
    ensures
        r == (just_pressed == Some(true) && !pointer_busy(interactions@)),
{
    match just_pressed {
        Some(true) => {},
        _ => {
            return false;
        },
    }
    let mut i: usize = 0;
    while i < interactions.len()
        invariant
            i <= interactions@.len(),
            just_pressed == Some(true),
            forall|k: int| 0 <= k < i ==> interactions@[k] == Interaction::Idle,
        decreases interactions@.len() - i,
    {
        if interactions[i] != Interaction::Idle {
            return false;
        }
        i = i + 1;
    }
    true
}

/// How a toolbar button is painted.
#[derive(Clone, Copy, Debug, PartialEq, Eq, Structural)]
pub enum ButtonLook {
    Active,
    Hover,
    Normal,
}

/// Active beats hover beats normal.
pub open spec fn look_of(active: bool, interaction: Interaction) -> ButtonLook {
    if active {
        ButtonLook::Active
    } else if interaction == Interaction::Idle {
        ButtonLook::Normal
    } else {
        ButtonLook::Hover
    }
}

pub fn button_look(active: bool, interaction: Interaction) -> (r: ButtonLook)
    ensures
        r == look_of(active, interaction),
{
    match (active, interaction) {
        (true, _) => ButtonLook::Active,
        (false, Interaction::Hovered) => ButtonLook::Hover,
        (false, Interaction::Pressed) => ButtonLook::Hover,
        (false, Interaction::Idle) => ButtonLook::Normal,
    }
}

/// The upper-case form of an ASCII letter; other characters as they are.
pub open spec fn ascii_upper(c: char) -> char {
    if 'a' <= c <= 'z' {
        (c as u32 - 32) as char
    } else {
        c
    }
}

/// The key for a letter, in either case.
pub fn letter_key(c: char) -> (r: Option<KeyCode>)
    ensures
        r == (if 'A' <= ascii_upper(c) <= 'Z' {
            Some(KeyCode::Letter(ascii_upper(c)))
        } else {
            None
        }),
{
    if 'A' <= c && c <= 'Z' {
        Some(KeyCode::Letter(c))
    } else if 'a' <= c && c <= 'z' {
        let upper: u8 = (c as u8) - 32;
        Some(KeyCode::Letter(upper as char))
    } else {
        None
    }
}

/// Shift is held while either shift key is; no other key counts.
pub proof fn shift_is_either_key(k: Keys)
    ensures
        k.shifted() <==> exists|i: int|
            0 <= i < k.held@.len() && ((#[trigger] k.held@[i]) == KeyCode::ShiftLeft || k.held@[i]
                == KeyCode::ShiftRight),
{
    if k.held@.contains(KeyCode::ShiftLeft) {
        let i = choose|i: int| 0 <= i < k.held@.len() && k.held@[i] == KeyCode::ShiftLeft;
        assert(k.held@[i] == KeyCode::ShiftLeft);
    }
    if k.held@.contains(KeyCode::ShiftRight) {
        let i = choose|i: int| 0 <= i < k.held@.len() && k.held@[i] == KeyCode::ShiftRight;
        assert(k.held@[i] == KeyCode::ShiftRight);
    }
}

/// A key counts as gone down only on a keyboard that is there and has it among
/// the fresh ones; holding it does not count.
pub proof fn only_fresh_keys_count(keys: Option<Keys>, key: KeyCode)
    ensures
        keys is None ==> !went_down(keys, key),
        keys matches Some(k) ==> (went_down(keys, key) <==> exists|i: int|
            0 <= i < k.fresh@.len() && #[trigger] k.fresh@[i] == key),
{
    if let Some(k) = keys {
        if k.fresh@.contains(key) {
            let i = choose|i: int| 0 <= i < k.fresh@.len() && k.fresh@[i] == key;
            assert(k.fresh@[i] == key);
        }
    }
}

/// The pointer is busy while it presses or hovers over any element.
pub proof fn busy_is_pressing_or_hovering(interactions: Seq<Interaction>)
    ensures
        pointer_busy(interactions) <==> exists|i: int|
            0 <= i < interactions.len() && ((#[trigger] interactions[i]) == Interaction::Pressed
                || interactions[i] == Interaction::Hovered),
{
    if pointer_busy(interactions) {
        let i = choose|i: int| 0 <= i < interactions.len() && interactions[i] != Interaction::Idle;
        assert(interactions[i] == Interaction::Pressed || interactions[i] == Interaction::Hovered);
    }
}

/// An active button looks active; one that is not looks hovered while the pointer
/// presses or hovers over it, and normal else.
pub proof fn looks_follow_state(interaction: Interaction)
    ensures
        look_of(true, interaction) == ButtonLook::Active,
        look_of(false, Interaction::Pressed) == ButtonLook::Hover,
        look_of(false, Interaction::Hovered) == ButtonLook::Hover,
        look_of(false, Interaction::Idle) == ButtonLook::Normal,
{
}

/// A lower-case letter goes to the upper-case letter of the same place in the
/// alphabet; everything else stays.
pub proof fn upper_case_keeps_the_place(c: char)
    ensures
        'a' <= c <= 'z' ==> 'A' <= ascii_upper(c) <= 'Z' && ascii_upper(c) as u32 - 'A' as u32
            == c as u32 - 'a' as u32,
        !('a' <= c <= 'z') ==> ascii_upper(c) == c,
        ascii_upper(ascii_upper(c)) == ascii_upper(c),
{
}

} // verus!
