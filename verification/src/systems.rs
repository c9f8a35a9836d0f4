//! The systems of the broadcast engine. A system reacts to an event by
//! changing the game state and by producing lines of narrative.

use vstd::prelude::*;
use crate::command::{direction_name, Command};
use crate::engine::{EngineEvent, EngineOutput};
use crate::game_state::{
    answers_to, first_holding, first_holding_from, first_named, first_named_from, holds_name,
    item_views, lemma_first_holding, lemma_first_named, position_holding, position_named,
    GameState, Item, Player, Room,
};
use crate::text::{concat2, concat3, join, joined};

verus! {

/// A unit of game logic that the engine offers every event to.
pub trait System: Sized {
    /// A short name, for diagnostics.
    fn name(&self) -> &'static str;

    /// Whether the system, offered `event` in state `before`, may become
    /// `next`, leave the state `after` and say `lines`. A system that says
    /// nothing of itself may do anything that keeps the state valid.
    open spec fn reacts(
        &self,
        before: GameState,
        event: EngineEvent,
        next: Self,
        after: GameState,
        lines: Seq<Seq<char>>,
    ) -> bool {
        true
    }

    /// Reacts to `event`. A system keeps a valid state valid.
    fn on_event(&mut self, state: &mut GameState, event: &EngineEvent) -> (out: EngineOutput)
        requires
            old(state).valid(),
        ensures
            final(state).valid(),
            old(self).reacts(*old(state), *event, *final(self), *final(state), out.text()),
    ;
}

/// The lines that explain the commands.
pub open spec fn help_lines() -> Seq<Seq<char>> {
    seq![
        "Commands:"@,
        "  look | l"@,
        "  north/south/east/west (or n/s/e/w)"@,
        "  go <direction>"@,
        "  take <item>"@,
        "  drop <item>"@,
        "  inv | i"@,
        "  quit"@,
    ]
}

/// One line per item: a dash, a blank and the item's name.
pub open spec fn bullets(items: Seq<Item>) -> Seq<Seq<char>> {
    Seq::new(items.len(), |i: int| "- "@ + items[i].name@)
}

/// What a look at `room` shows: title and description, then the items if
/// there are any, then the exits in ascending order if there are any.
pub open spec fn look_lines(room: Room) -> Seq<Seq<char>> {
    seq![room.title@, room.description@] + (if room.items@.len() > 0 {
        seq!["You see:"@] + bullets(room.items@)
    } else {
        Seq::empty()
    }) + (if room.exits.keys().len() > 0 {
        seq!["Exits: "@ + joined(room.exits.keys(), ", "@)]
    } else {
        Seq::empty()
    })
}

/// The state `before` with the player standing in `dest`.
pub open spec fn moved_to(before: GameState, dest: String) -> GameState {
    GameState { player: Player { location: dest, ..before.player }, ..before }
}

/// How the world system reacts to a command: it explains, looks, walks,
/// ends the game, and reports what it does not understand. Other commands
/// it leaves to other systems.
pub open spec fn basic_world_reacts(
    before: GameState,
    event: EngineEvent,
    after: GameState,
    lines: Seq<Seq<char>>,
) -> bool {
    match event {
        EngineEvent::Command(Command::Help) => after == before && lines == help_lines(),
        EngineEvent::Command(Command::Look) => after == before && lines == look_lines(
            before.here(),
        ),
        EngineEvent::Command(Command::Move(dir)) => {
            let key = direction_name(dir);
            if before.here().exits@.contains_key(key) {
                after == moved_to(before, before.here().exits@[key]) && lines == seq![
                    "You travel "@ + key + "."@,
                ]
            } else {
                after == before && lines == seq!["You can't go that way."@]
            }
        },
        EngineEvent::Command(Command::Quit) => after == (GameState { is_over: true, ..before })
            && lines == seq!["Goodbye."@],
        EngineEvent::Command(Command::Unknown(raw)) => after == before && lines == seq![
            "I don't understand: "@ + raw@,
        ],
        _ => after == before && lines.len() == 0,
    }
}

fn push_bullets(out: &mut EngineOutput, items: &Vec<Item>)
    ensures
        final(out).text() == old(out).text() + bullets(items@),
{
    let mut i: usize = 0;
    while i < items.len()
        invariant
            i <= items.len(),
            out.text() == old(out).text() + bullets(items@.subrange(0, i as int)),
        decreases items.len() - i,
    {
        out.push(concat2("- ", items[i].name.as_str()));
        assert(out.text() =~= old(out).text() + bullets(items@.subrange(0, i + 1)));
        i = i + 1;
    }
    assert(items@.subrange(0, items@.len() as int) =~= items@);
}

fn look_output(room: &Room) -> (out: EngineOutput)
    requires
        room.wf(),
    ensures
        out.text() == look_lines(*room),
{
    let mut out = EngineOutput::new();
    out.push(room.title.clone());
    out.push(room.description.clone());
    assert(out.text() =~= seq![room.title@, room.description@]);
    if room.items.len() > 0 {
        out.push(String::from_str("You see:"));
        push_bullets(&mut out, &room.items);
        assert(out.text() =~= seq![room.title@, room.description@] + (seq!["You see:"@] + bullets(
            room.items@,
        )));
    } else {
        assert(out.text() =~= seq![room.title@, room.description@] + Seq::<Seq<char>>::empty());
    }
    let ghost mid = out.text();
    if !room.exits.is_empty() {
        let exits = room.exits.key_list();
        let list = join(&exits, ", ");
        out.push(concat2("Exits: ", list.as_str()));
        assert(out.text() =~= mid + seq!["Exits: "@ + joined(room.exits.keys(), ", "@)]);
    } else {
        assert(out.text() =~= mid + Seq::<Seq<char>>::empty());
    }
    out
}

/// The system of the world itself: help, look, movement and quitting.
#[derive(Debug, Default, Clone, Copy, PartialEq, Eq, Structural)]
pub struct BasicWorldSystem;

impl System for BasicWorldSystem {
    fn name(&self) -> (r: &'static str)
        ensures
            r@ == "basic_world"@,
    {
        "basic_world"
    }

    open spec fn reacts(
        &self,
        before: GameState,
        event: EngineEvent,
        next: Self,
        after: GameState,
        lines: Seq<Seq<char>>,
    ) -> bool {
        basic_world_reacts(before, event, after, lines)
    }

    fn on_event(&mut self, state: &mut GameState, event: &EngineEvent) -> (out: EngineOutput) {
        match event {
            EngineEvent::Command(Command::Help) => {
                let out = EngineOutput::lines(
                    [
                        "Commands:",
                        "  look | l",
                        "  north/south/east/west (or n/s/e/w)",
                        "  go <direction>",
                        "  take <item>",
                        "  drop <item>",
                        "  inv | i",
                        "  quit",
                    ],
                );
                assert(out.text() =~= help_lines());
                out
            },
            EngineEvent::Command(Command::Look) => look_output(state.current_room()),
            EngineEvent::Command(Command::Move(dir)) => {
                let dest = match state.current_room().exits.get(dir.as_str()) {
                    Some(d) => Some(d.clone()),
                    None => None,
                };
                match dest {
                    Some(room_id) => {
                        state.player.location = room_id;
                        EngineOutput::line(concat3("You travel ", dir.as_str(), ".").as_str())
                    },
                    None => EngineOutput::line("You can't go that way."),
                }
            },
            EngineEvent::Command(Command::Quit) => {
                state.is_over = true;
                EngineOutput::line("Goodbye.")
            },
            EngineEvent::Command(Command::Unknown(raw)) => EngineOutput::line(
                concat2("I don't understand: ", raw.as_str()).as_str(),
            ),
            _ => EngineOutput::none(),
        }
    }
}

/// What the player is told about what they carry.
pub open spec fn inventory_lines(inventory: Seq<Item>) -> Seq<Seq<char>> {
    if inventory.len() == 0 {
        seq!["Your inventory is empty."@]
    } else {
        seq!["You are carrying:"@] + bullets(inventory)
    }
}

/// Whether `after` is `before` but for the items of the room the player
/// stands in and for the player's inventory.
pub open spec fn items_moved(
    before: GameState,
    after: GameState,
    room_items: Seq<Item>,
    inventory: Seq<Item>,
) -> bool {
    let loc = before.player.location@;
    &&& after.is_over == before.is_over
    &&& after.variables == before.variables
    &&& after.player.name == before.player.name
    &&& after.player.location == before.player.location
    &&& after.player.flags == before.player.flags
    &&& after.player.inventory@ == inventory
    &&& after.world@.dom() == before.world@.dom()
    &&& forall|id: Seq<char>|
        id != loc && before.world@.contains_key(id) ==> #[trigger] after.world@[id]
            == before.world@[id]
    &&& after.here().id == before.here().id
    &&& after.here().title == before.here().title
    &&& after.here().description == before.here().description
    &&& after.here().exits == before.here().exits
    &&& after.here().items@ == room_items
}

/// How the inventory system reacts to a command: it lists what the player
/// carries, and moves an item between the room the player stands in and
/// the inventory. Letter case in ASCII aside, taking finds the first item
/// of the room whose whole name is the words of the command, and dropping
/// the first carried item whose name holds them. Other commands it leaves
/// to other systems.
pub open spec fn inventory_reacts(
    before: GameState,
    event: EngineEvent,
    after: GameState,
    lines: Seq<Seq<char>>,
) -> bool {
    match event {
        EngineEvent::Command(Command::Inventory) => after == before && lines == inventory_lines(
            before.player.inventory@,
        ),
        EngineEvent::Command(Command::Take(name)) => {
            let here = before.here().items@;
            let i = first_named(here, name@);
            if i < here.len() {
                items_moved(
                    before,
                    after,
                    here.remove(i),
                    before.player.inventory@.push(here[i]),
                ) && lines == seq!["You take the "@ + here[i].name@ + "."@]
            } else {
                after == before && lines == seq!["You don't see that here."@]
            }
        },
        EngineEvent::Command(Command::Drop(name)) => {
            let carried = before.player.inventory@;
            let i = first_holding(carried, name@);
            if i < carried.len() {
                items_moved(
                    before,
                    after,
                    before.here().items@.push(carried[i]),
                    carried.remove(i),
                ) && lines == seq!["You drop the "@ + carried[i].name@ + "."@]
            } else {
                after == before && lines == seq!["You aren't carrying that."@]
            }
        },
        _ => after == before && lines.len() == 0,
    }
}

/// The system of what the player carries: inventory, take and drop.
#[derive(Debug, Default, Clone, Copy, PartialEq, Eq, Structural)]
pub struct InventorySystem;

impl System for InventorySystem {
    fn name(&self) -> (r: &'static str)
        ensures
            r@ == "inventory"@,
    {
        "inventory"
    }

    open spec fn reacts(
        &self,
        before: GameState,
        event: EngineEvent,
        next: Self,
        after: GameState,
        lines: Seq<Seq<char>>,
    ) -> bool {
        inventory_reacts(before, event, after, lines)
    }

    fn on_event(&mut self, state: &mut GameState, event: &EngineEvent) -> (out: EngineOutput) {
        match event {
            EngineEvent::Command(Command::Inventory) => {
                if state.player.inventory.len() == 0 {
                    return EngineOutput::line("Your inventory is empty.");
                }
                let mut out = EngineOutput::new();
                out.push(String::from_str("You are carrying:"));
                push_bullets(&mut out, &state.player.inventory);
                assert(out.text() =~= seq!["You are carrying:"@] + bullets(
                    state.player.inventory@,
                ));
                out
            },
            EngineEvent::Command(Command::Take(name)) => {
                match position_named(&state.current_room().items, name.as_str()) {
                    Some(i) => {
                        let item = state.current_room_mut().items.remove(i);
                        assert(state.world@.dom() =~= old(state).world@.dom());
                        state.player.inventory.push(item.clone());
                        EngineOutput::line(
                            concat3("You take the ", item.name.as_str(), ".").as_str(),
                        )
                    },
                    None => EngineOutput::line("You don't see that here."),
                }
            },
            EngineEvent::Command(Command::Drop(name)) => {
                match position_holding(&state.player.inventory, name.as_str()) {
                    Some(i) => {
                        let item = state.player.inventory.remove(i);
                        state.current_room_mut().add_item(item.clone());
                        assert(state.world@.dom() =~= old(state).world@.dom());
                        EngineOutput::line(
                            concat3("You drop the ", item.name.as_str(), ".").as_str(),
                        )
                    },
                    None => EngineOutput::line("You aren't carrying that."),
                }
            },
            _ => EngineOutput::none(),
        }
    }
}

/// Whether the system reacts to what a state and an event say, and to
/// nothing else: two states that are the same world model, offered two
/// events that say the same, are left as the same world model with the
/// same lines, and the system becomes the same both times.
pub open spec fn replayable<S: System>(system: S) -> bool {
    forall|
        b1: GameState,
        b2: GameState,
        e1: EngineEvent,
        e2: EngineEvent,
        n1: S,
        n2: S,
        a1: GameState,
        a2: GameState,
        l1: Seq<Seq<char>>,
        l2: Seq<Seq<char>>,
    |
        b1.valid() && b2.valid() && b1@ == b2@ && e1@ == e2@ && a1.valid() && a2.valid()
            && #[trigger] system.reacts(b1, e1, n1, a1, l1) && #[trigger] system.reacts(
            b2,
            e2,
            n2,
            a2,
            l2,
        ) ==> a1@ == a2@ && l1 == l2 && n1 == n2
}

proof fn lemma_first_named_of_views(s1: Seq<Item>, s2: Seq<Item>, name: Seq<char>, i: int)
    requires
        item_views(s1) == item_views(s2),
        0 <= i,
    ensures
        first_named_from(s1, name, i) == first_named_from(s2, name, i),
    decreases s1.len() - i,
{
    assert(s1.len() == item_views(s1).len());
    assert(s2.len() == item_views(s2).len());
    if i < s1.len() {
        assert(item_views(s1)[i] == s1[i]@);
        assert(item_views(s2)[i] == s2[i]@);
        if !answers_to(s1[i], name) {
            lemma_first_named_of_views(s1, s2, name, i + 1);
        }
    }
}

proof fn lemma_first_holding_of_views(s1: Seq<Item>, s2: Seq<Item>, name: Seq<char>, i: int)
    requires
        item_views(s1) == item_views(s2),
        0 <= i,
    ensures
        first_holding_from(s1, name, i) == first_holding_from(s2, name, i),
    decreases s1.len() - i,
{
    assert(s1.len() == item_views(s1).len());
    assert(s2.len() == item_views(s2).len());
    if i < s1.len() {
        assert(item_views(s1)[i] == s1[i]@);
        assert(item_views(s2)[i] == s2[i]@);
        if !holds_name(s1[i], name) {
            lemma_first_holding_of_views(s1, s2, name, i + 1);
        }
    }
}

proof fn lemma_bullets_of_views(s1: Seq<Item>, s2: Seq<Item>)
    requires
        item_views(s1) == item_views(s2),
    ensures
        bullets(s1) == bullets(s2),
        s1.len() == s2.len(),
{
    assert(s1.len() == item_views(s1).len());
    assert(s2.len() == item_views(s2).len());
    assert forall|i: int| 0 <= i < s1.len() implies bullets(s1)[i] == bullets(s2)[i] by {
        assert(item_views(s1)[i] == s1[i]@);
        assert(item_views(s2)[i] == s2[i]@);
    }
    assert(bullets(s1) =~= bullets(s2));
}

proof fn lemma_here_of_views(b1: GameState, b2: GameState)
    requires
        b1.valid(),
        b2.valid(),
        b1@ == b2@,
    ensures
        b1.player.location@ == b2.player.location@,
        b1.here()@ == b2.here()@,
        item_views(b1.here().items@) == item_views(b2.here().items@),
        b1.here().exits.keys() == b2.here().exits.keys(),
        item_views(b1.player.inventory@) == item_views(b2.player.inventory@),
        forall|id: Seq<char>| b1.world@.contains_key(id) == b2.world@.contains_key(id),
        forall|id: Seq<char>|
            b1.world@.contains_key(id) ==> (#[trigger] b1.world@[id])@ == b2.world@[id]@,
{
    let loc = b1.player.location@;
    assert(b1@.player == b2@.player);
    assert(b1@.world == b2@.world);
    assert forall|id: Seq<char>| b1.world@.contains_key(id) == b2.world@.contains_key(id) by {
        assert(b1@.world.contains_key(id) == b1.world@.contains_key(id));
        assert(b2@.world.contains_key(id) == b2.world@.contains_key(id));
    }
    assert forall|id: Seq<char>| b1.world@.contains_key(id) implies (#[trigger] b1.world@[id])@
        == b2.world@[id]@ by {
        assert(b1@.world.contains_key(id));
        assert(b1@.world[id] == b1.world@[id]@);
        assert(b2@.world[id] == b2.world@[id]@);
    }
    assert(b1.here()@ == b2.here()@);
    let m1 = b1.here().exits;
    let m2 = b2.here().exits;
    assert(m1@.dom() =~= m2@.dom()) by {
        assert forall|k: Seq<char>| m1@.contains_key(k) == m2@.contains_key(k) by {
            assert(b1.here()@.exits.contains_key(k) == b2.here()@.exits.contains_key(k));
        }
    }
    m1.lemma_keys_of_domain(&m2);
}

proof fn lemma_moved_views(
    b1: GameState,
    b2: GameState,
    a1: GameState,
    a2: GameState,
    r1: Seq<Item>,
    r2: Seq<Item>,
    i1: Seq<Item>,
    i2: Seq<Item>,
)
    requires
        b1.valid(),
        b2.valid(),
        b1@ == b2@,
        items_moved(b1, a1, r1, i1),
        items_moved(b2, a2, r2, i2),
        item_views(r1) == item_views(r2),
        item_views(i1) == item_views(i2),
    ensures
        a1@ == a2@,
{
    lemma_here_of_views(b1, b2);
    let loc = b1.player.location@;
    assert(a1@.player == a2@.player);
    assert(a1@.variables =~= a2@.variables) by {
        assert(b1@.variables == b2@.variables);
    }
    assert forall|id: Seq<char>| a1@.world.contains_key(id) == a2@.world.contains_key(id) by {
        assert(a1.world@.dom().contains(id) == b1.world@.dom().contains(id));
        assert(a2.world@.dom().contains(id) == b2.world@.dom().contains(id));
    }
    assert forall|id: Seq<char>| a1@.world.contains_key(id) implies #[trigger] a1@.world[id]
        == a2@.world[id] by {
        assert(a1.world@.dom().contains(id) == b1.world@.dom().contains(id));
        assert(a2.world@.dom().contains(id) == b2.world@.dom().contains(id));
        if id != loc {
            assert(a1.world@[id] == b1.world@[id]);
            assert(a2.world@[id] == b2.world@[id]);
            assert(b1.world@[id]@ == b2.world@[id]@);
        } else {
            assert(a1.here()@.exits == b1.here()@.exits);
            assert(a2.here()@.exits == b2.here()@.exits);
            assert(a1.here()@ == a2.here()@);
        }
    }
    assert(a1@.world =~= a2@.world);
}

proof fn lemma_views_after_remove(s1: Seq<Item>, s2: Seq<Item>, i: int)
    requires
        item_views(s1) == item_views(s2),
        0 <= i < s1.len(),
    ensures
        item_views(s1.remove(i)) == item_views(s2.remove(i)),
        s1[i]@ == s2[i]@,
{
    assert(s1.len() == item_views(s1).len());
    assert(s2.len() == item_views(s2).len());
    assert(item_views(s1)[i] == s1[i]@);
    assert(item_views(s2)[i] == s2[i]@);
    assert forall|k: int| 0 <= k < s1.len() - 1 implies item_views(s1.remove(i))[k] == item_views(
        s2.remove(i),
    )[k] by {
        let k0 = if k < i { k } else { k + 1 };
        assert(item_views(s1)[k0] == s1[k0]@);
        assert(item_views(s2)[k0] == s2[k0]@);
    }
    assert(item_views(s1.remove(i)) =~= item_views(s2.remove(i)));
}

proof fn lemma_views_after_push(s1: Seq<Item>, s2: Seq<Item>, x1: Item, x2: Item)
    requires
        item_views(s1) == item_views(s2),
        x1@ == x2@,
    ensures
        item_views(s1.push(x1)) == item_views(s2.push(x2)),
{
    assert(s1.len() == item_views(s1).len());
    assert(s2.len() == item_views(s2).len());
    assert forall|k: int| 0 <= k < s1.len() + 1 implies item_views(s1.push(x1))[k] == item_views(
        s2.push(x2),
    )[k] by {
        if k < s1.len() {
            assert(item_views(s1)[k] == s1[k]@);
            assert(item_views(s2)[k] == s2[k]@);
        }
    }
    assert(item_views(s1.push(x1)) =~= item_views(s2.push(x2)));
}

/// The inventory system reacts to what a state and an event say, and to
/// nothing else.
pub proof fn law_inventory_replays()
    ensures
        replayable(InventorySystem),
{
    assert forall|
        b1: GameState,
        b2: GameState,
        e1: EngineEvent,
        e2: EngineEvent,
        n1: InventorySystem,
        n2: InventorySystem,
        a1: GameState,
        a2: GameState,
        l1: Seq<Seq<char>>,
        l2: Seq<Seq<char>>,
    |
        b1.valid() && b2.valid() && b1@ == b2@ && e1@ == e2@ && a1.valid() && a2.valid()
            && #[trigger] InventorySystem.reacts(b1, e1, n1, a1, l1)
            && #[trigger] InventorySystem.reacts(b2, e2, n2, a2, l2) implies a1@ == a2@ && l1
        == l2 && n1 == n2 by {
        lemma_here_of_views(b1, b2);
        let inv1 = b1.player.inventory@;
        let inv2 = b2.player.inventory@;
        let here1 = b1.here().items@;
        let here2 = b2.here().items@;
        lemma_bullets_of_views(inv1, inv2);
        lemma_bullets_of_views(here1, here2);
        match (e1, e2) {
            (
                EngineEvent::Command(Command::Take(n1)),
                EngineEvent::Command(Command::Take(n2)),
            ) => {
                lemma_first_named_of_views(here1, here2, n1@, 0);
                let i = first_named(here1, n1@);
                lemma_first_named(here1, n1@, 0);
                if i < here1.len() {
                    lemma_views_after_remove(here1, here2, i);
                    lemma_views_after_push(inv1, inv2, here1[i], here2[i]);
                    lemma_moved_views(
                        b1,
                        b2,
                        a1,
                        a2,
                        here1.remove(i),
                        here2.remove(i),
                        inv1.push(here1[i]),
                        inv2.push(here2[i]),
                    );
                }
            },
            (
                EngineEvent::Command(Command::Drop(n1)),
                EngineEvent::Command(Command::Drop(n2)),
            ) => {
                lemma_first_holding_of_views(inv1, inv2, n1@, 0);
                let i = first_holding(inv1, n1@);
                lemma_first_holding(inv1, n1@, 0);
                if i < inv1.len() {
                    lemma_views_after_remove(inv1, inv2, i);
                    lemma_views_after_push(here1, here2, inv1[i], inv2[i]);
                    lemma_moved_views(
                        b1,
                        b2,
                        a1,
                        a2,
                        here1.push(inv1[i]),
                        here2.push(inv2[i]),
                        inv1.remove(i),
                        inv2.remove(i),
                    );
                }
            },
            _ => {},
        }
    }
}

/// The world system reacts to what a state and an event say, and to
/// nothing else.
pub proof fn law_basic_world_replays()
    ensures
        replayable(BasicWorldSystem),
{
    assert forall|
        b1: GameState,
        b2: GameState,
        e1: EngineEvent,
        e2: EngineEvent,
        n1: BasicWorldSystem,
        n2: BasicWorldSystem,
        a1: GameState,
        a2: GameState,
        l1: Seq<Seq<char>>,
        l2: Seq<Seq<char>>,
    |
        b1.valid() && b2.valid() && b1@ == b2@ && e1@ == e2@ && a1.valid() && a2.valid()
            && #[trigger] BasicWorldSystem.reacts(b1, e1, n1, a1, l1)
            && #[trigger] BasicWorldSystem.reacts(b2, e2, n2, a2, l2) implies a1@ == a2@ && l1
        == l2 && n1 == n2 by {
        lemma_here_of_views(b1, b2);
        lemma_bullets_of_views(b1.here().items@, b2.here().items@);
        match (e1, e2) {
            (EngineEvent::Command(Command::Move(d1)), EngineEvent::Command(Command::Move(d2))) => {
                let key = direction_name(d1);
                assert(b1.here()@.exits.contains_key(key) == b2.here()@.exits.contains_key(key));
                if b1.here().exits@.contains_key(key) {
                    assert(b1.here()@.exits[key] == b2.here()@.exits[key]);
                    assert(a1@.world =~= b1@.world);
                    assert(a2@.world =~= b2@.world);
                }
            },
            (EngineEvent::Command(Command::Quit), EngineEvent::Command(Command::Quit)) => {
                assert(a1@.world =~= b1@.world);
                assert(a2@.world =~= b2@.world);
            },
            _ => {},
        }
    }
}

} // verus!
