//! The toolbar: which buttons were clicked, and how each one looks.
use vstd::prelude::*;

use crate::editor::keys::button_look;
use crate::editor::keys::look_of;
use crate::editor::keys::ButtonLook;
use crate::editor::keys::Interaction;
use crate::table::TableKey;

verus! {

/// What the clicked buttons stand for, in order.
pub open spec fn pressed<B>(buttons: Seq<(Interaction, B)>) -> Seq<B>
    decreases buttons.len(),
{
    if buttons.len() == 0 {
        Seq::empty()
    } else if buttons.last().0 == Interaction::Pressed {
        pressed(buttons.drop_last()).push(buttons.last().1)
    } else {
        pressed(buttons.drop_last())
    }
}

pub fn pressed_buttons<B: Copy>(buttons: &Vec<(Interaction, B)>) -> (r: Vec<B>)
    ensures
        r@ == pressed(buttons@),
{
    let mut r: Vec<B> = Vec::new();
    let mut i: usize = 0;
    while i < buttons.len()
        invariant
            i <= buttons@.len(),
            r@ == pressed(buttons@.take(i as int)),
        decreases buttons@.len() - i,
    {
        if buttons[i].0 == Interaction::Pressed {
            r.push(buttons[i].1);
        }
        assert(buttons@.take(i + 1).drop_last() =~= buttons@.take(i as int));
        i = i + 1;
    }
    assert(buttons@.take(i as int) =~= buttons@);
    r
}

/// How the buttons look, with `active` what is active now.
pub open spec fn looks<B>(active: Option<B>, buttons: Seq<(Interaction, B)>) -> Seq<ButtonLook> {
    buttons.map_values(|b: (Interaction, B)| look_of(active == Some(b.1), b.0))
}

pub fn button_looks<B: TableKey>(active: Option<B>, buttons: &Vec<(Interaction, B)>) -> (r: Vec<
    ButtonLook,
>)
    ensures
        r@ == looks(active, buttons@),
{
    let mut r: Vec<ButtonLook> = Vec::new();
    let mut i: usize = 0;
    while i < buttons.len()
        invariant
            i <= buttons@.len(),
            r@ == looks(active, buttons@.take(i as int)),
        decreases buttons@.len() - i,
    {
        let (interaction, button) = buttons[i];
        let is_active = match active {
            Some(a) => a.same_key(&button),
            None => false,
        };
        r.push(button_look(is_active, interaction));
        i = i + 1;
        assert(r@ =~= looks(active, buttons@.take(i as int)));
    }
    assert(buttons@.take(i as int) =~= buttons@);
    r
}

/// A button that stands for what is active looks active, whatever the pointer
/// does; a hovered one never looks normal.
pub proof fn active_beats_hover<B>(active: Option<B>, buttons: Seq<(Interaction, B)>, i: int)
    requires
        0 <= i < buttons.len(),
    ensures
        looks(active, buttons)[i] == ButtonLook::Active <==> active == Some(buttons[i].1),
        looks(active, buttons)[i] == ButtonLook::Normal ==> buttons[i].0 == Interaction::Idle,
{
}

/// The buttons that were clicked count in order: one more button adds what it
/// stands for where it is pressed, and nothing where the pointer only hovers or
/// is elsewhere.
pub proof fn only_pressed_buttons_count<B>(buttons: Seq<(Interaction, B)>, next: (Interaction, B))
    ensures
        pressed(Seq::<(Interaction, B)>::empty()).len() == 0,
        next.0 == Interaction::Pressed ==> pressed(buttons.push(next)) == pressed(buttons).push(
            next.1,
        ),
        next.0 == Interaction::Hovered || next.0 == Interaction::Idle ==> pressed(
            buttons.push(next),
        ) == pressed(buttons),
{
    assert(buttons.push(next).drop_last() =~= buttons);
}

} // verus!
