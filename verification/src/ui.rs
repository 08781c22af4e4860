use crate::action::Action;
use crate::items::Item;
use crate::player::{PlayerState, PlayerView};
use crate::world::{World, WorldView};
use vstd::prelude::*;

verus! {

impl PlayerView {
    /// The player after an item was chosen to be placed: nothing is selected
    /// any more, and sell mode is off.
    pub open spec fn after_choice(self, item: Item) -> PlayerView {
        PlayerView { item_to_place: Some(item), sell_mode: false, selected_entity: None, ..self }
    }

    /// The player after sell mode was switched: switching it on drops the
    /// chosen item and the selection.
    pub open spec fn after_sell_switch(self) -> PlayerView {
        if self.sell_mode {
            PlayerView { sell_mode: false, ..self }
        } else {
            PlayerView { sell_mode: true, item_to_place: None, selected_entity: None, ..self }
        }
    }

    /// The player once a selection has taken precedence: while something is
    /// selected, no item is chosen and sell mode is off.
    pub open spec fn settled(self) -> PlayerView {
        if self.selected_entity is Some {
            PlayerView { item_to_place: None, sell_mode: false, ..self }
        } else {
            self
        }
    }
}

/// Chooses the item to place with the next click.
pub fn choose_item(player: &mut PlayerState, item: Item)
    ensures
        final(player)@ == old(player)@.after_choice(item),
        final(player).time_multiplier == old(player).time_multiplier,
{
    player.item_to_place = Some(item);
    player.sell_mode = false;
    player.selected_entity = None;
}

/// Switches sell mode on or off.
pub fn toggle_sell_mode(player: &mut PlayerState)
    ensures
        final(player)@ == old(player)@.after_sell_switch(),
        final(player).time_multiplier == old(player).time_multiplier,
{
    player.sell_mode = !player.sell_mode;
    if player.sell_mode {
        player.item_to_place = None;
        player.selected_entity = None;
    }
}

/// Lets a selection take precedence over a chosen item and over sell mode.
pub fn settle_selection(player: &mut PlayerState)
    ensures
        final(player)@ == old(player)@.settled(),
        final(player).time_multiplier == old(player).time_multiplier,
{
    if player.selected_entity.is_some() {
        player.item_to_place = None;
        player.sell_mode = false;
    }
}

/// Asks for the game to start anew with the next tick, and starts the
/// recording afresh.
pub fn request_restart(world: &mut World)
    ensures
        final(world)@ == (WorldView {
            queue: old(world)@.queue.push(Action::RestartGame),
            log: Seq::empty(),
            disable_rec: false,
            play: false,
            ..old(world)@
        }),
        old(world).wf() ==> final(world).wf(),
{
    world.queue.0.push(Action::RestartGame);
    world.recorder.disable_rec = false;
    world.recorder.play = false;
    world.recorder.actions.0 = Vec::new();
}

} // verus!
