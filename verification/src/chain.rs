//! The command chain: the systems are offered a command one after the
//! other, and the first that answers wins.

use vstd::prelude::*;
use crate::adventure_game::{
    lemma_living_in_views, lemma_view_list_parts, lemma_views_of_insert, lemma_views_of_parts,
    living_in, name_matches, view_list, views_of, AdventureGame, Item, Monster, Player,
};
use crate::text::{
    back_space, back_spaces, chars_of, concat2, concat3, contains, decimal, render_int,
    slice_string, split_words, str_equal, texts, to_lowercase, unicode_lower, words,
};

verus! {

/// The character sequence of an answer, if there is one.
pub open spec fn said(reply: Option<String>) -> Option<Seq<char>> {
    match reply {
        Some(text) => Some(text@),
        None => None,
    }
}

/// A unit of game logic that is offered the player's commands.
pub trait System: Sized {
    /// What the system needs to hold of itself to be offered a command.
    open spec fn ready(&self) -> bool {
        true
    }

    /// Whether the system, offered `command` with `args` in the game
    /// `before`, may become `next`, leave the game `after` and give
    /// `reply`. A system that says nothing of itself may do anything that
    /// keeps the game well formed.
    open spec fn answers(
        &self,
        command: Seq<char>,
        args: Seq<Seq<char>>,
        before: AdventureGame,
        next: Self,
        after: AdventureGame,
        reply: Option<Seq<char>>,
    ) -> bool {
        true
    }

    /// Offers the system a command. It answers with a text, or with nothing
    /// if the command is not its business.
    fn on_command(&mut self, command: &str, args: &Vec<String>, game: &mut AdventureGame) -> (reply:
        Option<String>)
        requires
            old(self).ready(),
            old(game).wf(),
        ensures
            final(self).ready(),
            final(game).wf(),
            old(self).answers(
                command@,
                texts(args@),
                *old(game),
                *final(self),
                *final(game),
                said(reply),
            ),
    ;
}

/// Whether offering `command` to the systems from position `i` on, until
/// one answers, may turn the systems into `systems_end` and the game into
/// `end` with the answer `reply`; `reply` is nothing if none answers. Each
/// system leaves the game well formed, and the systems behind the one that
/// answers are not offered the command.
pub open spec fn first_response<S: System>(
    systems: Seq<S>,
    i: int,
    command: Seq<char>,
    args: Seq<Seq<char>>,
    game: AdventureGame,
    systems_end: Seq<S>,
    end: AdventureGame,
    reply: Option<Seq<char>>,
) -> bool
    decreases systems.len() - i,
{
    if i < 0 || i >= systems.len() {
        systems_end == systems && end == game && reply is None
    } else {
        exists|next: S, mid: AdventureGame, answer: Option<Seq<char>>| #[trigger]
            systems[i].answers(command, args, game, next, mid, answer) && mid.wf() && if answer
                is Some {
                reply == answer && end == mid && systems_end == systems.update(i, next)
            } else {
                first_response(
                    systems.update(i, next),
                    i + 1,
                    command,
                    args,
                    mid,
                    systems_end,
                    end,
                    reply,
                )
            }
    }
}

/// The first word of a line, or the empty text if it has none.
pub open spec fn verb_of(line: Seq<char>) -> Seq<char> {
    if words(line).len() > 0 {
        words(line)[0]
    } else {
        Seq::empty()
    }
}

/// The words of a line behind its first.
pub open spec fn arguments_of(line: Seq<char>) -> Seq<Seq<char>> {
    if words(line).len() > 0 {
        words(line).subrange(1, words(line).len() as int)
    } else {
        Seq::empty()
    }
}

impl AdventureGame {
    /// Offers the line `command` to `systems` in order: its first word is
    /// the command, the other words are its arguments. The answer of the
    /// first system that gives one is the result; if none answers, the
    /// result says that the command is unknown.
    pub fn process_command<S: System>(&mut self, systems: &mut Vec<S>, command: &str) -> (r: Vec<
        String,
    >)
        requires
            old(self).wf(),
            forall|k: int| 0 <= k < old(systems)@.len() ==> (#[trigger] old(systems)@[k]).ready(),
        ensures
            final(self).wf(),
            final(systems)@.len() == old(systems)@.len(),
            forall|k: int| 0 <= k < final(systems)@.len() ==> (#[trigger] final(systems)@[k]).ready(),
            r@.len() == 1,
            exists|reply: Option<Seq<char>>| #[trigger]
                first_response(
                    old(systems)@,
                    0,
                    verb_of(command@),
                    arguments_of(command@),
                    *old(self),
                    final(systems)@,
                    *final(self),
                    reply,
                ) && r@[0]@ == match reply {
                    Some(text) => text,
                    None => "Unknown command: "@ + command@,
                },
    {
        let mut parts = split_words(command);
        let verb = if parts.len() > 0 {
            parts.remove(0)
        } else {
            String::new()
        };
        let args = parts;
        assert(verb@ == verb_of(command@));
        assert(texts(args@) =~= arguments_of(command@));
        let ghost systems0 = systems@;
        let n = systems.len();
        let mut i: usize = 0;
        let mut result: Option<String> = None;
        while i < n && result.is_none()
            invariant
                i <= n,
                n == systems@.len(),
                n == systems0.len(),
                systems0 == old(systems)@,
                self.wf(),
                verb@ == verb_of(command@),
                texts(args@) == arguments_of(command@),
                forall|k: int| 0 <= k < n ==> (#[trigger] systems@[k]).ready(),
                result is None ==> forall|s: Seq<S>, e: AdventureGame, reply: Option<Seq<char>>| #[trigger]
                    first_response(systems@, i as int, verb@, texts(args@), *self, s, e, reply)
                        ==> first_response(
                        systems0,
                        0,
                        verb@,
                        texts(args@),
                        *old(self),
                        s,
                        e,
                        reply,
                    ),
                result is Some ==> first_response(
                    systems0,
                    0,
                    verb@,
                    texts(args@),
                    *old(self),
                    systems@,
                    *self,
                    said(result),
                ),
            decreases n - i + if result is None { 1int } else { 0int },
        {
            let ghost before = *self;
            let ghost systems1 = systems@;
            let output = systems[i].on_command(verb.as_str(), &args, self);
            proof {
                let next = systems@[i as int];
                assert(systems@ =~= systems1.update(i as int, next));
                assert(systems1[i as int].answers(
                    verb@,
                    texts(args@),
                    before,
                    next,
                    *self,
                    said(output),
                ));
                if output is Some {
                    assert(first_response(
                        systems1,
                        i as int,
                        verb@,
                        texts(args@),
                        before,
                        systems@,
                        *self,
                        said(output),
                    ));
                } else {
                    assert forall|s: Seq<S>, e: AdventureGame, reply: Option<Seq<char>>| #[trigger]
                        first_response(
                            systems@,
                            i + 1,
                            verb@,
                            texts(args@),
                            *self,
                            s,
                            e,
                            reply,
                        ) implies first_response(
                        systems0,
                        0,
                        verb@,
                        texts(args@),
                        *old(self),
                        s,
                        e,
                        reply,
                    ) by {
                        assert(first_response(
                            systems1,
                            i as int,
                            verb@,
                            texts(args@),
                            before,
                            s,
                            e,
                            reply,
                        ));
                    }
                }
            }
            match output {
                Some(text) => {
                    result = Some(text);
                },
                None => {
                    i = i + 1;
                },
            }
        }
        let mut out: Vec<String> = Vec::new();
        match result {
            Some(text) => {
                out.push(text);
            },
            None => {
                proof {
                    assert(first_response(
                        systems@,
                        i as int,
                        verb@,
                        texts(args@),
                        *self,
                        systems@,
                        *self,
                        None,
                    ));
                }
                out.push(concat2("Unknown command: ", command));
            },
        }
        out
    }
}

/// What a line of the player's input asks for.
#[derive(Debug, Clone, PartialEq, Eq)]
pub enum Input {
    /// Leave the game.
    Quit,
    /// Show the help.
    Help,
    /// Offer this line, trimmed and in lower case, to the systems.
    Command(String),
}

/// Reads a line of the player's input: trimmed and in lower case, `quit`,
/// `q` and `exit` leave the game, `help` and `h` show the help, and
/// anything else is a command.
pub fn read_input(line: &str) -> (r: Input)
    ensures
        ({
            let text = unicode_lower(crate::text::trimmed(line@));
            if text == "quit"@ || text == "q"@ || text == "exit"@ {
                r is Quit
            } else if text == "help"@ || text == "h"@ {
                r is Help
            } else {
                r matches Input::Command(c) && c@ == text
            }
        }),
{
    let text = to_lowercase(crate::text::trim(line).as_str());
    if str_equal(text.as_str(), "quit") || str_equal(text.as_str(), "q") || str_equal(
        text.as_str(),
        "exit",
    ) {
        Input::Quit
    } else if str_equal(text.as_str(), "help") || str_equal(text.as_str(), "h") {
        Input::Help
    } else {
        Input::Command(text)
    }
}

/// Whether `w` is one of the twelve words that name a direction: north,
/// south, east, west, up and down, and their first letters.
pub open spec fn is_direction_word(w: Seq<char>) -> bool {
    ||| w == "north"@
    ||| w == "south"@
    ||| w == "east"@
    ||| w == "west"@
    ||| w == "up"@
    ||| w == "down"@
    ||| w == "n"@
    ||| w == "s"@
    ||| w == "e"@
    ||| w == "w"@
    ||| w == "u"@
    ||| w == "d"@
}

/// Whether a walk in `direction` moves the player: it leads somewhere and
/// the turn can still be counted.
pub open spec fn walks(game: AdventureGame, direction: Seq<char>) -> bool {
    game.turn_count < i32::MAX && game.move_target(direction) is Some
}

/// The game after a walk in `direction`: the player has moved and a turn is
/// counted if the walk moves the player, and nothing has changed if not.
pub open spec fn walked(before: AdventureGame, direction: Seq<char>, after: AdventureGame) -> bool {
    if walks(before, direction) {
        after == (AdventureGame {
            player: Player {
                current_room: before.move_target(direction)->0,
                ..before.player
            },
            turn_count: (before.turn_count + 1) as i32,
            ..before
        })
    } else {
        after == before
    }
}

fn walk(game: &mut AdventureGame, direction: &str) -> (r: bool)
    requires
        old(game).wf(),
    ensures
        final(game).wf(),
        r == walks(*old(game), direction@),
        walked(*old(game), direction@, *final(game)),
{
    if game.turn_count < i32::MAX {
        game.move_player(direction)
    } else {
        false
    }
}

/// How the world system answers: it looks around, and it walks on `go`,
/// on `move` and on the name of a direction. Other commands are not its
/// business.
pub open spec fn basic_world_answers(
    command: Seq<char>,
    args: Seq<Seq<char>>,
    before: AdventureGame,
    after: AdventureGame,
    reply: Option<Seq<char>>,
) -> bool {
    if command == "look"@ || command == "l"@ {
        after == before && reply == Some(before.look_text())
    } else if command == "go"@ || command == "move"@ {
        if args.len() > 0 {
            walked(before, args[0], after) && reply == Some(
                if walks(before, args[0]) {
                    "You move "@ + args[0] + "."@
                } else {
                    "You can't go "@ + args[0] + "."@
                },
            )
        } else {
            after == before && reply == Some("Go where?"@)
        }
    } else if is_direction_word(command) {
        walked(before, command, after) && reply == Some(
            if walks(before, command) {
                "You move "@ + command + "."@
            } else {
                "You can't go that way."@
            },
        )
    } else {
        after == before && reply is None
    }
}

fn direction_word(w: &str) -> (r: bool)
    ensures
        r == is_direction_word(w@),
{
    str_equal(w, "north") || str_equal(w, "south") || str_equal(w, "east") || str_equal(w, "west")
        || str_equal(w, "up") || str_equal(w, "down") || str_equal(w, "n") || str_equal(w, "s")
        || str_equal(w, "e") || str_equal(w, "w") || str_equal(w, "u") || str_equal(w, "d")
}

/// The system of the world itself: looking and walking.
#[derive(Debug, Default, Clone, Copy, PartialEq, Eq, Structural)]
pub struct BasicWorldSystem;

impl System for BasicWorldSystem {
    open spec fn answers(
        &self,
        command: Seq<char>,
        args: Seq<Seq<char>>,
        before: AdventureGame,
        next: Self,
        after: AdventureGame,
        reply: Option<Seq<char>>,
    ) -> bool {
        basic_world_answers(command, args, before, after, reply)
    }

    fn on_command(&mut self, command: &str, args: &Vec<String>, game: &mut AdventureGame) -> (reply:
        Option<String>) {
        if str_equal(command, "look") || str_equal(command, "l") {
            Some(game.look())
        } else if str_equal(command, "go") || str_equal(command, "move") {
            if args.len() > 0 {
                let dir = args[0].as_str();
                if walk(game, dir) {
                    Some(concat3("You move ", dir, "."))
                } else {
                    Some(concat3("You can't go ", dir, "."))
                }
            } else {
                Some(String::from_str("Go where?"))
            }
        } else if direction_word(command) {
            if walk(game, command) {
                Some(concat3("You move ", command, "."))
            } else {
                Some(String::from_str("You can't go that way."))
            }
        } else {
            None
        }
    }
}

/// One line for each number of `inventory` that is the number of an item:
/// two blanks, a dash, a blank and the name.
pub open spec fn carried_lines(inventory: Seq<i32>, items: Map<i32, Item>) -> Seq<char>
    decreases inventory.len(),
{
    if inventory.len() == 0 {
        Seq::empty()
    } else if items.contains_key(inventory.last()) {
        carried_lines(inventory.drop_last(), items) + "  - "@ + items[inventory.last()].name@
            + "\n"@
    } else {
        carried_lines(inventory.drop_last(), items)
    }
}

/// `s` without the white space at its end.
pub open spec fn trimmed_end(s: Seq<char>) -> Seq<char> {
    s.subrange(0, back_space(s, 0, s.len() as int))
}

/// What the player is told of the inventory.
pub open spec fn inventory_text(game: AdventureGame) -> Seq<char> {
    if game.player.inventory@.len() == 0 {
        "Your inventory is empty."@
    } else {
        trimmed_end("Inventory:\n"@ + carried_lines(game.player.inventory@, game.items@))
    }
}

/// How the inventory system answers: it lists what the player carries, and
/// takes and drops the item that its first argument names. Other commands
/// are not its business.
pub open spec fn inventory_answers(
    command: Seq<char>,
    args: Seq<Seq<char>>,
    before: AdventureGame,
    after: AdventureGame,
    reply: Option<Seq<char>>,
) -> bool {
    if command == "inventory"@ || command == "inv"@ || command == "i"@ {
        after == before && reply == Some(inventory_text(before))
    } else if command == "take"@ || command == "get"@ {
        if args.len() > 0 {
            exists|taken: bool| #[trigger]
                before.took(args[0], after, taken) && reply == Some(
                    if taken {
                        "Taken."@
                    } else {
                        "You can't take that."@
                    },
                )
        } else {
            after == before && reply == Some("Take what?"@)
        }
    } else if command == "drop"@ {
        if args.len() > 0 {
            exists|gone: bool| #[trigger]
                before.dropped(args[0], after, gone) && reply == Some(
                    if gone {
                        "Dropped."@
                    } else {
                        "You don't have that."@
                    },
                )
        } else {
            after == before && reply == Some("Drop what?"@)
        }
    } else {
        after == before && reply is None
    }
}

fn list_inventory(game: &AdventureGame) -> (r: String)
    requires
        game.wf(),
    ensures
        r@ == inventory_text(*game),
{
    if game.player.inventory.len() == 0 {
        return String::from_str("Your inventory is empty.");
    }
    let mut result = String::from_str("Inventory:\n");
    let ghost carried = game.player.inventory@;
    let mut i: usize = 0;
    assert(carried.subrange(0, 0) =~= Seq::empty());
    assert(result@ =~= "Inventory:\n"@ + carried_lines(carried.subrange(0, 0), game.items@));
    while i < game.player.inventory.len()
        invariant
            i <= carried.len(),
            carried == game.player.inventory@,
            game.wf(),
            result@ == "Inventory:\n"@ + carried_lines(carried.subrange(0, i as int), game.items@),
        decreases carried.len() - i,
    {
        proof {
            let now = carried.subrange(0, i + 1);
            assert(now.drop_last() =~= carried.subrange(0, i as int));
        }
        match game.items.get(game.player.inventory[i]) {
            Some(item) => {
                let ghost was = result@;
                result.append("  - ");
                result.append(item.name.as_str());
                result.append("\n");
                assert(result@ =~= was + "  - "@ + item.name@ + "\n"@);
            },
            None => {},
        }
        i = i + 1;
    }
    assert(carried.subrange(0, carried.len() as int) =~= carried);
    let v = chars_of(result.as_str());
    let end = back_spaces(&v, 0, v.len());
    slice_string(result.as_str(), 0, end)
}

/// The system of what the player carries.
#[derive(Debug, Default, Clone, Copy, PartialEq, Eq, Structural)]
pub struct InventorySystem;

impl System for InventorySystem {
    open spec fn answers(
        &self,
        command: Seq<char>,
        args: Seq<Seq<char>>,
        before: AdventureGame,
        next: Self,
        after: AdventureGame,
        reply: Option<Seq<char>>,
    ) -> bool {
        inventory_answers(command, args, before, after, reply)
    }

    fn on_command(&mut self, command: &str, args: &Vec<String>, game: &mut AdventureGame) -> (reply:
        Option<String>) {
        if str_equal(command, "inventory") || str_equal(command, "inv") || str_equal(command, "i") {
            Some(list_inventory(game))
        } else if str_equal(command, "take") || str_equal(command, "get") {
            if args.len() > 0 {
                let taken = game.take_item(args[0].as_str());
                assert(old(game).took(texts(args@)[0], *game, taken));
                if taken {
                    Some(String::from_str("Taken."))
                } else {
                    Some(String::from_str("You can't take that."))
                }
            } else {
                Some(String::from_str("Take what?"))
            }
        } else if str_equal(command, "drop") {
            if args.len() > 0 {
                let gone = game.drop_item(args[0].as_str());
                assert(old(game).dropped(texts(args@)[0], *game, gone));
                if gone {
                    Some(String::from_str("Dropped."))
                } else {
                    Some(String::from_str("You don't have that."))
                }
            } else {
                Some(String::from_str("Drop what?"))
            }
        } else {
            None
        }
    }
}

/// The position of the first monster at or after `i` that has `needle` in
/// its name and a health to lose, or the length of `monsters`.
pub open spec fn first_target(monsters: Seq<Monster>, needle: Seq<char>, i: int) -> int
    decreases monsters.len() - i,
{
    if i < 0 || i >= monsters.len() {
        monsters.len() as int
    } else if name_matches(monsters[i].name@, needle) && monsters[i].current_health is Some {
        i
    } else {
        first_target(monsters, needle, i + 1)
    }
}

proof fn lemma_first_target(monsters: Seq<Monster>, needle: Seq<char>, i: int)
    requires
        0 <= i <= monsters.len(),
    ensures
        i <= first_target(monsters, needle, i) <= monsters.len(),
    decreases monsters.len() - i,
{
    if i < monsters.len() && !(name_matches(monsters[i].name@, needle)
        && monsters[i].current_health is Some) {
        lemma_first_target(monsters, needle, i + 1);
    }
}

/// The player's skill with the first kind of weapon, which is the damage of
/// an attack; nothing for a player without that skill.
pub open spec fn attack_damage(player: Player) -> int {
    if player.weapon_ability@.contains_key(1) {
        player.weapon_ability@[1] as int
    } else {
        0
    }
}

/// What an attack on `target` comes to. The first living monster in the
/// room that has `target` in its name and a health to lose is attacked. If
/// the damage uses up its health, the monster filed under its number is
/// dead; if not, the attack is told and nothing changes. Without such a
/// monster nothing changes.
pub open spec fn attacked(
    before: AdventureGame,
    target: Seq<char>,
    after: AdventureGame,
    reply: Seq<char>,
) -> bool {
    let monsters = living_in(before.monsters.values(), before.player.current_room);
    let k = first_target(monsters, target, 0);
    if k < monsters.len() {
        let damage = attack_damage(before.player);
        let left = monsters[k].current_health->0 - damage;
        if left <= 0 {
            &&& after == (AdventureGame { monsters: after.monsters, ..before })
            &&& after.monsters@ == if before.monsters@.contains_key(monsters[k].id) {
                before.monsters@.insert(
                    monsters[k].id,
                    Monster { is_dead: true, ..before.monsters@[monsters[k].id] },
                )
            } else {
                before.monsters@
            }
            &&& reply == "You defeat the "@ + monsters[k].name@ + "!"@
        } else {
            after == before && reply == "You attack the "@ + monsters[k].name@ + " for "@
                + decimal(damage) + " damage. It has "@ + decimal(left) + " health left."@
        }
    } else {
        after == before && reply == "There's no "@ + target + " here to attack."@
    }
}

/// What the player is told of their own state.
pub open spec fn status_text(game: AdventureGame) -> Seq<char> {
    "Player: "@ + game.player.name@ + "\nHealth: "@ + decimal(
        match game.player.current_health {
            Some(h) => h as int,
            None => 0,
        },
    ) + "/"@ + decimal(game.player.hardiness as int) + "\nGold: "@ + decimal(
        game.player.gold as int,
    ) + "\nLocation: Room "@ + decimal(game.player.current_room as int)
}

/// How the combat system answers: it attacks the monster that its first
/// argument names, and it tells the player's state. Other commands are not
/// its business.
pub open spec fn combat_answers(
    command: Seq<char>,
    args: Seq<Seq<char>>,
    before: AdventureGame,
    after: AdventureGame,
    reply: Option<Seq<char>>,
) -> bool {
    if command == "attack"@ || command == "fight"@ {
        if args.len() > 0 {
            reply is Some && attacked(before, args[0], after, reply->0)
        } else {
            after == before && reply == Some("Attack what?"@)
        }
    } else if command == "status"@ || command == "stats"@ {
        after == before && reply == Some(status_text(before))
    } else {
        after == before && reply is None
    }
}

/// The system of fights.
#[derive(Debug, Default, Clone, Copy, PartialEq, Eq, Structural)]
pub struct CombatSystem;

impl CombatSystem {
    fn attack_monster(&self, game: &mut AdventureGame, target_name: &str) -> (r: String)
        requires
            old(game).wf(),
        ensures
            final(game).wf(),
            attacked(*old(game), target_name@, *final(game), r@),
    {
        let needle = to_lowercase(target_name);
        let damage: i32 = match game.player.weapon_ability.get(1) {
            Some(skill) => *skill,
            None => 0,
        };
        let monsters = game.get_monsters_in_room(game.player.current_room);
        let ghost there = living_in(game.monsters.values(), game.player.current_room);
        let mut found: Option<(i32, String, i32)> = None;
        let mut i: usize = 0;
        proof {
            lemma_first_target(there, target_name@, 0);
        }
        while i < monsters.len() && found.is_none()
            invariant
                i <= monsters@.len(),
                monsters@.len() == there.len(),
                forall|k: int| 0 <= k < monsters@.len() ==> *(#[trigger] monsters@[k]) == there[k],
                needle@ == unicode_lower(target_name@),
                found is None ==> first_target(there, target_name@, i as int) == first_target(
                    there,
                    target_name@,
                    0,
                ),
                found is Some ==> {
                    let k = first_target(there, target_name@, 0);
                    let hit = found->0;
                    &&& k < there.len()
                    &&& hit.0 == there[k].id
                    &&& hit.1 == there[k].name
                    &&& there[k].current_health == Some(hit.2)
                },
            decreases monsters@.len() - i + if found is None { 1int } else { 0int },
        {
            let monster = monsters[i];
            let named = contains(to_lowercase(monster.name.as_str()).as_str(), needle.as_str());
            match monster.current_health {
                Some(health) => {
                    if named {
                        found = Some((monster.id, monster.name.clone(), health));
                    } else {
                        i = i + 1;
                    }
                },
                None => {
                    i = i + 1;
                },
            }
        }
        match found {
            Some((id, name, health)) => {
                let left: i64 = health as i64 - damage as i64;
                if left <= 0 {
                    match game.monsters.get_mut(id) {
                        Some(m) => {
                            m.is_dead = true;
                        },
                        None => {},
                    }
                    concat3("You defeat the ", name.as_str(), "!")
                } else {
                    String::from_str("You attack the ").concat(name.as_str()).concat(
                        " for ",
                    ).concat(render_int(damage as i64).as_str()).concat(" damage. It has ").concat(
                        render_int(left).as_str(),
                    ).concat(" health left.")
                }
            },
            None => concat3("There's no ", target_name, " here to attack."),
        }
    }

    fn show_status(&self, game: &AdventureGame) -> (r: String)
        ensures
            r@ == status_text(*game),
    {
        let health: i32 = match game.player.current_health {
            Some(h) => h,
            None => 0,
        };
        String::from_str("Player: ").concat(game.player.name.as_str()).concat("\nHealth: ").concat(
            render_int(health as i64).as_str(),
        ).concat("/").concat(render_int(game.player.hardiness as i64).as_str()).concat(
            "\nGold: ",
        ).concat(render_int(game.player.gold as i64).as_str()).concat("\nLocation: Room ").concat(
            render_int(game.player.current_room as i64).as_str(),
        )
    }
}

impl System for CombatSystem {
    open spec fn answers(
        &self,
        command: Seq<char>,
        args: Seq<Seq<char>>,
        before: AdventureGame,
        next: Self,
        after: AdventureGame,
        reply: Option<Seq<char>>,
    ) -> bool {
        combat_answers(command, args, before, after, reply)
    }

    fn on_command(&mut self, command: &str, args: &Vec<String>, game: &mut AdventureGame) -> (reply:
        Option<String>) {
        if str_equal(command, "attack") || str_equal(command, "fight") {
            if args.len() > 0 {
                Some(self.attack_monster(game, args[0].as_str()))
            } else {
                Some(String::from_str("Attack what?"))
            }
        } else if str_equal(command, "status") || str_equal(command, "stats") {
            Some(self.show_status(game))
        } else {
            None
        }
    }
}

/// Whether the system answers to what a game and a command say, and to
/// nothing else: offered one command in two games that are the same world
/// model, it leaves the same world model with the same answer, and becomes
/// the same both times.
pub open spec fn replayable<S: System>(system: S) -> bool {
    forall|
        command: Seq<char>,
        args: Seq<Seq<char>>,
        g1: AdventureGame,
        g2: AdventureGame,
        n1: S,
        n2: S,
        a1: AdventureGame,
        a2: AdventureGame,
        r1: Option<Seq<char>>,
        r2: Option<Seq<char>>,
    |
        g1.wf() && g2.wf() && g1@ == g2@ && #[trigger] system.answers(
            command,
            args,
            g1,
            n1,
            a1,
            r1,
        ) && #[trigger] system.answers(command, args, g2, n2, a2, r2) ==> a1@ == a2@ && r1 == r2
            && n1 == n2
}

proof fn lemma_walked_of_world(
    g1: AdventureGame,
    g2: AdventureGame,
    direction: Seq<char>,
    a1: AdventureGame,
    a2: AdventureGame,
)
    requires
        g1.wf(),
        g2.wf(),
        g1@ == g2@,
        walked(g1, direction, a1),
        walked(g2, direction, a2),
    ensures
        walks(g1, direction) == walks(g2, direction),
        a1@ == a2@,
{
    g1.lemma_move_of_world(&g2, direction);
}

/// The world system answers to what a game and a command say, and to
/// nothing else.
pub proof fn law_world_answers_replay()
    ensures
        replayable(BasicWorldSystem),
{
    assert forall|
        command: Seq<char>,
        args: Seq<Seq<char>>,
        g1: AdventureGame,
        g2: AdventureGame,
        n1: BasicWorldSystem,
        n2: BasicWorldSystem,
        a1: AdventureGame,
        a2: AdventureGame,
        r1: Option<Seq<char>>,
        r2: Option<Seq<char>>,
    |
        g1.wf() && g2.wf() && g1@ == g2@ && #[trigger] BasicWorldSystem.answers(
            command,
            args,
            g1,
            n1,
            a1,
            r1,
        ) && #[trigger] BasicWorldSystem.answers(command, args, g2, n2, a2, r2) implies a1@ == a2@
        && r1 == r2 && n1 == n2 by {
        g1.lemma_look_of_world(&g2);
        if command == "look"@ || command == "l"@ {
        } else if command == "go"@ || command == "move"@ {
            if args.len() > 0 {
                lemma_walked_of_world(g1, g2, args[0], a1, a2);
            }
        } else if is_direction_word(command) {
            lemma_walked_of_world(g1, g2, command, a1, a2);
        }
    }
}

proof fn lemma_carried_lines_views(inventory: Seq<i32>, m1: Map<i32, Item>, m2: Map<i32, Item>)
    requires
        views_of(m1) == views_of(m2),
    ensures
        carried_lines(inventory, m1) == carried_lines(inventory, m2),
    decreases inventory.len(),
{
    lemma_views_of_parts(m1, m2);
    if inventory.len() > 0 {
        lemma_carried_lines_views(inventory.drop_last(), m1, m2);
        let id = inventory.last();
        assert(m1.contains_key(id) == m2.contains_key(id));
    }
}

/// The inventory system answers to what a game and a command say, and to
/// nothing else.
pub proof fn law_inventory_answers_replay()
    ensures
        replayable(InventorySystem),
{
    assert forall|
        command: Seq<char>,
        args: Seq<Seq<char>>,
        g1: AdventureGame,
        g2: AdventureGame,
        n1: InventorySystem,
        n2: InventorySystem,
        a1: AdventureGame,
        a2: AdventureGame,
        r1: Option<Seq<char>>,
        r2: Option<Seq<char>>,
    |
        g1.wf() && g2.wf() && g1@ == g2@ && #[trigger] InventorySystem.answers(
            command,
            args,
            g1,
            n1,
            a1,
            r1,
        ) && #[trigger] InventorySystem.answers(command, args, g2, n2, a2, r2) implies a1@ == a2@
        && r1 == r2 && n1 == n2 by {
        g1.lemma_same_world(&g2);
        lemma_carried_lines_views(g1.player.inventory@, g1.items@, g2.items@);
        if command == "inventory"@ || command == "inv"@ || command == "i"@ {
        } else if command == "take"@ || command == "get"@ {
            if args.len() > 0 {
                let t1 = choose|taken: bool| #[trigger]
                    g1.took(args[0], a1, taken) && r1 == Some(
                        if taken {
                            "Taken."@
                        } else {
                            "You can't take that."@
                        },
                    );
                let t2 = choose|taken: bool| #[trigger]
                    g2.took(args[0], a2, taken) && r2 == Some(
                        if taken {
                            "Taken."@
                        } else {
                            "You can't take that."@
                        },
                    );
                g1.lemma_took_of_world(&g2, args[0], a1, a2, t1, t2);
            }
        } else if command == "drop"@ {
            if args.len() > 0 {
                let d1 = choose|gone: bool| #[trigger]
                    g1.dropped(args[0], a1, gone) && r1 == Some(
                        if gone {
                            "Dropped."@
                        } else {
                            "You don't have that."@
                        },
                    );
                let d2 = choose|gone: bool| #[trigger]
                    g2.dropped(args[0], a2, gone) && r2 == Some(
                        if gone {
                            "Dropped."@
                        } else {
                            "You don't have that."@
                        },
                    );
                g1.lemma_dropped_of_world(&g2, args[0], a1, a2, d1, d2);
            }
        }
    }
}

proof fn lemma_first_target_views(s1: Seq<Monster>, s2: Seq<Monster>, needle: Seq<char>, i: int)
    requires
        view_list(s1) == view_list(s2),
        0 <= i,
    ensures
        first_target(s1, needle, i) == first_target(s2, needle, i),
    decreases s1.len() - i,
{
    lemma_view_list_parts(s1, s2);
    if i < s1.len() {
        if !(name_matches(s1[i].name@, needle) && s1[i].current_health is Some) {
            lemma_first_target_views(s1, s2, needle, i + 1);
        }
    }
}

proof fn lemma_attacked_of_world(
    g1: AdventureGame,
    g2: AdventureGame,
    target: Seq<char>,
    a1: AdventureGame,
    a2: AdventureGame,
    r1: Seq<char>,
    r2: Seq<char>,
)
    requires
        g1.wf(),
        g2.wf(),
        g1@ == g2@,
        attacked(g1, target, a1, r1),
        attacked(g2, target, a2, r2),
    ensures
        a1@ == a2@,
        r1 == r2,
{
    g1.lemma_same_world(&g2);
    let room = g1.player.current_room;
    lemma_living_in_views(g1.monsters.values(), g2.monsters.values(), room);
    let m1 = living_in(g1.monsters.values(), room);
    let m2 = living_in(g2.monsters.values(), room);
    lemma_first_target_views(m1, m2, target, 0);
    lemma_first_target(m1, target, 0);
    lemma_view_list_parts(m1, m2);
    let k = first_target(m1, target, 0);
    if k < m1.len() {
        let id = m1[k].id;
        assert(m2[k].id == id);
        assert(m1[k]@ == m2[k]@);
        lemma_views_of_parts(g1.monsters@, g2.monsters@);
        if g1.monsters@.contains_key(id) {
            lemma_views_of_insert(
                g1.monsters@,
                g2.monsters@,
                id,
                Monster { is_dead: true, ..g1.monsters@[id] },
                Monster { is_dead: true, ..g2.monsters@[id] },
            );
        }
    }
}

/// The combat system answers to what a game and a command say, and to
/// nothing else.
pub proof fn law_combat_answers_replay()
    ensures
        replayable(CombatSystem),
{
    assert forall|
        command: Seq<char>,
        args: Seq<Seq<char>>,
        g1: AdventureGame,
        g2: AdventureGame,
        n1: CombatSystem,
        n2: CombatSystem,
        a1: AdventureGame,
        a2: AdventureGame,
        r1: Option<Seq<char>>,
        r2: Option<Seq<char>>,
    |
        g1.wf() && g2.wf() && g1@ == g2@ && #[trigger] CombatSystem.answers(
            command,
            args,
            g1,
            n1,
            a1,
            r1,
        ) && #[trigger] CombatSystem.answers(command, args, g2, n2, a2, r2) implies a1@ == a2@
        && r1 == r2 && n1 == n2 by {
        g1.lemma_same_world(&g2);
        if command == "attack"@ || command == "fight"@ {
            if args.len() > 0 {
                lemma_attacked_of_world(g1, g2, args[0], a1, a2, r1->0, r2->0);
            }
        }
    }
}

/// Replaying a command gives the same world and the same answer. Where
/// every system answers to nothing but what the game and the command say,
/// one command offered in two games that are the same world model leaves
/// the same world model with the same answer, and the systems become the
/// same both times.
pub proof fn law_command_replays<S: System>(
    systems: Seq<S>,
    i: int,
    command: Seq<char>,
    args: Seq<Seq<char>>,
    g1: AdventureGame,
    g2: AdventureGame,
    s1: Seq<S>,
    s2: Seq<S>,
    e1: AdventureGame,
    e2: AdventureGame,
    r1: Option<Seq<char>>,
    r2: Option<Seq<char>>,
)
    requires
        0 <= i,
        forall|k: int| i <= k < systems.len() ==> replayable(#[trigger] systems[k]),
        g1.wf(),
        g2.wf(),
        g1@ == g2@,
        first_response(systems, i, command, args, g1, s1, e1, r1),
        first_response(systems, i, command, args, g2, s2, e2, r2),
    ensures
        e1@ == e2@,
        r1 == r2,
        s1 == s2,
    decreases systems.len() - i,
{
    if i < systems.len() {
        let (n1, m1, w1) = choose|next: S, mid: AdventureGame, answer: Option<Seq<char>>| #[trigger]
            systems[i].answers(command, args, g1, next, mid, answer) && mid.wf() && if answer
                is Some {
                r1 == answer && e1 == mid && s1 == systems.update(i, next)
            } else {
                first_response(systems.update(i, next), i + 1, command, args, mid, s1, e1, r1)
            };
        let (n2, m2, w2) = choose|next: S, mid: AdventureGame, answer: Option<Seq<char>>| #[trigger]
            systems[i].answers(command, args, g2, next, mid, answer) && mid.wf() && if answer
                is Some {
                r2 == answer && e2 == mid && s2 == systems.update(i, next)
            } else {
                first_response(systems.update(i, next), i + 1, command, args, mid, s2, e2, r2)
            };
        assert(replayable(systems[i]));
        assert(m1@ == m2@ && w1 == w2 && n1 == n2);
        if w1 is None {
            let rest = systems.update(i, n1);
            assert forall|k: int| i + 1 <= k < rest.len() implies replayable(#[trigger] rest[k]) by {
                assert(rest[k] == systems[k]);
            }
            law_command_replays(rest, i + 1, command, args, m1, m2, s1, s2, e1, e2, r1, r2);
        }
    }
}

} // verus!
