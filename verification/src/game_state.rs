//! The world model of the event-driven engine: rooms, items and the player,
//! each room known by a string identifier.

use vstd::prelude::*;
use crate::strmap::{StrMap, StrSet};
use crate::text::{contains_ignore_ascii_case, eq_ignore_ascii_case, lower_ascii, occurs};

verus! {

/// A thing that lies in a room or is carried by the player.
#[derive(Debug, PartialEq, Eq)]
pub struct Item {
    pub id: String,
    pub name: String,
    pub description: String,
}

/// The mathematical value of an [`Item`].
pub struct ItemView {
    pub id: Seq<char>,
    pub name: Seq<char>,
    pub description: Seq<char>,
}

impl View for Item {
    type V = ItemView;

    open spec fn view(&self) -> ItemView {
        ItemView { id: self.id@, name: self.name@, description: self.description@ }
    }
}

impl Clone for Item {
    fn clone(&self) -> (r: Self)
        ensures
            r == *self,
    {
        Item { id: self.id.clone(), name: self.name.clone(), description: self.description.clone() }
    }
}

/// The mathematical values of the items of a list, in order.
pub open spec fn item_views(items: Seq<Item>) -> Seq<ItemView> {
    Seq::new(items.len(), |i: int| items[i]@)
}

/// The texts that the strings of a map stand for, key by key.
pub open spec fn text_map(m: Map<Seq<char>, String>) -> Map<Seq<char>, Seq<char>> {
    Map::new(|k: Seq<char>| m.contains_key(k), |k: Seq<char>| m[k]@)
}

impl Item {
    /// An item with the given texts.
    pub fn new(id: &str, name: &str, description: &str) -> (r: Self)
        ensures
            r.id@ == id@,
            r.name@ == name@,
            r.description@ == description@,
    {
        Item {
            id: String::from_str(id),
            name: String::from_str(name),
            description: String::from_str(description),
        }
    }
}

/// Whether `item` answers to `name`, letter case in ASCII aside.
pub open spec fn answers_to(item: Item, name: Seq<char>) -> bool {
    lower_ascii(item.name@) == lower_ascii(name)
}

/// The position of the first item at or after `i` that answers to `name`,
/// or the length of `items` if there is none.
pub open spec fn first_named_from(items: Seq<Item>, name: Seq<char>, i: int) -> int
    decreases items.len() - i,
{
    if i < 0 || i >= items.len() {
        items.len() as int
    } else if answers_to(items[i], name) {
        i
    } else {
        first_named_from(items, name, i + 1)
    }
}

/// The position of the first item that answers to `name`, or the length of
/// `items` if there is none.
pub open spec fn first_named(items: Seq<Item>, name: Seq<char>) -> int {
    first_named_from(items, name, 0)
}

/// Where the first item that answers to a name stands, and that none
/// before it answers to the name.
pub proof fn lemma_first_named(items: Seq<Item>, name: Seq<char>, i: int)
    requires
        0 <= i <= items.len(),
    ensures
        i <= first_named_from(items, name, i) <= items.len(),
        forall|j: int| i <= j < first_named_from(items, name, i) ==> !answers_to(items[j], name),
        first_named_from(items, name, i) < items.len() ==> answers_to(
            items[first_named_from(items, name, i)],
            name,
        ),
    decreases items.len() - i,
{
    if i < items.len() && !answers_to(items[i], name) {
        lemma_first_named(items, name, i + 1);
    }
}

/// Whether the name of `item` holds `part`, letter case in ASCII aside.
pub open spec fn holds_name(item: Item, part: Seq<char>) -> bool {
    occurs(lower_ascii(item.name@), lower_ascii(part))
}

/// The position of the first item at or after `i` whose name holds `part`,
/// or the length of `items` if there is none.
pub open spec fn first_holding_from(items: Seq<Item>, part: Seq<char>, i: int) -> int
    decreases items.len() - i,
{
    if i < 0 || i >= items.len() {
        items.len() as int
    } else if holds_name(items[i], part) {
        i
    } else {
        first_holding_from(items, part, i + 1)
    }
}

/// The position of the first item whose name holds `part`, or the length
/// of `items` if there is none.
pub open spec fn first_holding(items: Seq<Item>, part: Seq<char>) -> int {
    first_holding_from(items, part, 0)
}

/// Where the first item whose name holds a part stands, and that no name
/// before it holds the part.
pub proof fn lemma_first_holding(items: Seq<Item>, part: Seq<char>, i: int)
    requires
        0 <= i <= items.len(),
    ensures
        i <= first_holding_from(items, part, i) <= items.len(),
        forall|j: int| i <= j < first_holding_from(items, part, i) ==> !holds_name(items[j], part),
        first_holding_from(items, part, i) < items.len() ==> holds_name(
            items[first_holding_from(items, part, i)],
            part,
        ),
    decreases items.len() - i,
{
    if i < items.len() && !holds_name(items[i], part) {
        lemma_first_holding(items, part, i + 1);
    }
}

/// Finds the first item of `items` whose name holds `part`, letter case in
/// ASCII aside.
pub fn position_holding(items: &Vec<Item>, part: &str) -> (r: Option<usize>)
    ensures
        r is Some <==> first_holding(items@, part@) < items@.len(),
        r is Some ==> r->0 == first_holding(items@, part@),
        r is Some <==> exists|j: int| 0 <= j < items@.len() && holds_name(items@[j], part@),
{
    proof {
        lemma_first_holding(items@, part@, 0);
    }
    let mut i: usize = 0;
    while i < items.len()
        invariant
            i <= items.len(),
            first_holding_from(items@, part@, i as int) == first_holding(items@, part@),
        decreases items.len() - i,
    {
        if contains_ignore_ascii_case(items[i].name.as_str(), part) {
            return Some(i);
        }
        i = i + 1;
    }
    None
}

/// Finds the first item of `items` that answers to `name`.
pub fn position_named(items: &Vec<Item>, name: &str) -> (r: Option<usize>)
    ensures
        r is Some <==> first_named(items@, name@) < items@.len(),
        r is Some ==> r->0 == first_named(items@, name@),
        r is Some <==> exists|j: int| 0 <= j < items@.len() && answers_to(items@[j], name@),
{
    proof {
        lemma_first_named(items@, name@, 0);
    }
    let mut i: usize = 0;
    while i < items.len()
        invariant
            i <= items.len(),
            first_named_from(items@, name@, i as int) == first_named(items@, name@),
        decreases items.len() - i,
    {
        if eq_ignore_ascii_case(items[i].name.as_str(), name) {
            return Some(i);
        }
        i = i + 1;
    }
    None
}

/// The player: where they are and what they carry.
#[derive(Debug, Clone, PartialEq, Eq)]
pub struct Player {
    pub name: String,
    pub location: String,
    pub inventory: Vec<Item>,
    pub flags: StrSet,
}

/// The mathematical value of a [`Player`].
pub struct PlayerView {
    pub name: Seq<char>,
    pub location: Seq<char>,
    pub inventory: Seq<ItemView>,
    pub flags: Set<Seq<char>>,
}

impl View for Player {
    type V = PlayerView;

    open spec fn view(&self) -> PlayerView {
        PlayerView {
            name: self.name@,
            location: self.location@,
            inventory: item_views(self.inventory@),
            flags: self.flags@,
        }
    }
}

impl Player {
    /// A player in `start_location` who carries nothing.
    pub fn new(name: &str, start_location: &str) -> (r: Self)
        ensures
            r.name@ == name@,
            r.location@ == start_location@,
            r.inventory@.len() == 0,
            r.flags.wf(),
            r.flags@ == Set::<Seq<char>>::empty(),
    {
        Player {
            name: String::from_str(name),
            location: String::from_str(start_location),
            inventory: Vec::new(),
            flags: StrSet::new(),
        }
    }

    /// Whether the player carries an item that answers to `name`.
    pub fn has_item_named(&self, name: &str) -> (r: bool)
        ensures
            r <==> exists|j: int|
                0 <= j < self.inventory@.len() && answers_to(self.inventory@[j], name@),
    {
        position_named(&self.inventory, name).is_some()
    }
}

/// A place in the world, with its ways out and the items that lie in it.
#[derive(Debug, Clone, PartialEq, Eq)]
pub struct Room {
    pub id: String,
    pub title: String,
    pub description: String,
    /// Direction to the identifier of the room that lies there.
    pub exits: StrMap<String>,
    pub items: Vec<Item>,
}

/// The mathematical value of a [`Room`].
pub struct RoomView {
    pub id: Seq<char>,
    pub title: Seq<char>,
    pub description: Seq<char>,
    pub exits: Map<Seq<char>, Seq<char>>,
    pub items: Seq<ItemView>,
}

impl View for Room {
    type V = RoomView;

    open spec fn view(&self) -> RoomView {
        RoomView {
            id: self.id@,
            title: self.title@,
            description: self.description@,
            exits: text_map(self.exits@),
            items: item_views(self.items@),
        }
    }
}

impl Room {
    /// The invariant of a room: its exit map is well formed.
    pub open spec fn wf(&self) -> bool {
        self.exits.wf()
    }

    /// A room without exits and without items.
    pub fn new(id: &str, title: &str, description: &str) -> (r: Self)
        ensures
            r.wf(),
            r.id@ == id@,
            r.title@ == title@,
            r.description@ == description@,
            r.exits@ == Map::<Seq<char>, String>::empty(),
            r.items@.len() == 0,
    {
        Room {
            id: String::from_str(id),
            title: String::from_str(title),
            description: String::from_str(description),
            exits: StrMap::new(),
            items: Vec::new(),
        }
    }

    /// The room with one more exit; an exit in the same direction is replaced.
    pub fn with_exit(self, direction: &str, dest_room: &str) -> (r: Self)
        requires
            self.wf(),
        ensures
            r.wf(),
            r.id == self.id,
            r.title == self.title,
            r.description == self.description,
            r.items == self.items,
            r.exits@.dom() == self.exits@.dom().insert(direction@),
            r.exits@[direction@]@ == dest_room@,
            forall|d: Seq<char>|
                d != direction@ && self.exits@.contains_key(d) ==> r.exits@[d] == self.exits@[d],
    {
        let mut room = self;
        let _ = room.exits.insert(String::from_str(direction), String::from_str(dest_room));
        room
    }

    /// The room with `item` added after the items it holds.
    pub fn with_item(self, item: Item) -> (r: Self)
        ensures
            r.id == self.id,
            r.title == self.title,
            r.description == self.description,
            r.exits == self.exits,
            r.items@ == self.items@.push(item),
    {
        let mut room = self;
        room.items.push(item);
        room
    }

    /// Takes out the first item that answers to `name`, if there is one.
    pub fn remove_item_named(&mut self, name: &str) -> (r: Option<Item>)
        ensures
            final(self).id == old(self).id,
            final(self).title == old(self).title,
            final(self).description == old(self).description,
            final(self).exits == old(self).exits,
            r is Some <==> first_named(old(self).items@, name@) < old(self).items@.len(),
            r is Some ==> r->0 == old(self).items@[first_named(old(self).items@, name@)]
                && final(self).items@ == old(self).items@.remove(
                first_named(old(self).items@, name@),
            ),
            r is None ==> final(self).items@ == old(self).items@,
    {
        match position_named(&self.items, name) {
            Some(idx) => Some(self.items.remove(idx)),
            None => None,
        }
    }

    /// Puts `item` after the items the room holds.
    pub fn add_item(&mut self, item: Item)
        ensures
            final(self).id == old(self).id,
            final(self).title == old(self).title,
            final(self).description == old(self).description,
            final(self).exits == old(self).exits,
            final(self).items@ == old(self).items@.push(item),
    {
        self.items.push(item);
    }
}

/// The whole state of a game: the rooms by identifier, the player, a store
/// of free-form variables and the flag that ends the game.
#[derive(Debug, Clone, PartialEq, Eq)]
pub struct GameState {
    pub world: StrMap<Room>,
    pub player: Player,
    pub variables: StrMap<String>,
    pub is_over: bool,
}

/// The mathematical value of a [`GameState`]: the world model as such,
/// whatever the order in which its maps were filled.
pub struct GameStateView {
    pub world: Map<Seq<char>, RoomView>,
    pub player: PlayerView,
    pub variables: Map<Seq<char>, Seq<char>>,
    pub is_over: bool,
}

impl View for GameState {
    type V = GameStateView;

    open spec fn view(&self) -> GameStateView {
        GameStateView {
            world: Map::new(
                |id: Seq<char>| self.world@.contains_key(id),
                |id: Seq<char>| self.world@[id]@,
            ),
            player: self.player@,
            variables: text_map(self.variables@),
            is_over: self.is_over,
        }
    }
}

/// Whether every exit of every room of `world` leads to a room of `world`.
pub open spec fn exits_resolve(world: Map<Seq<char>, Room>) -> bool {
    forall|id: Seq<char>, dir: Seq<char>|
        world.contains_key(id) && (#[trigger] world[id].exits@.contains_key(dir))
            ==> world.contains_key(world[id].exits@[dir]@)
}

impl GameState {
    /// The invariant of the containers the state is made of.
    pub open spec fn wf(&self) -> bool {
        &&& self.world.wf()
        &&& self.variables.wf()
        &&& self.player.flags.wf()
        &&& forall|id: Seq<char>| self.world@.contains_key(id) ==> (#[trigger] self.world@[id]).wf()
    }

    /// Whether the state is well formed, the player stands in a room of the
    /// world, and every exit leads to a room of the world.
    pub open spec fn valid(&self) -> bool {
        &&& self.wf()
        &&& self.world@.contains_key(self.player.location@)
        &&& exits_resolve(self.world@)
    }

    /// The room the player stands in.
    pub open spec fn here(&self) -> Room {
        self.world@[self.player.location@]
    }

    /// Whether this is the start of a game in the two-room demonstration
    /// world for a player called `player_name`: the player stands in the
    /// village with empty hands, a key lies there, the forest is to the
    /// north of the village and the village to the south of the forest.
    pub open spec fn opening(&self, player_name: Seq<char>) -> bool {
        &&& !self.is_over
        &&& self.variables@ == Map::<Seq<char>, String>::empty()
        &&& self.player.name@ == player_name
        &&& self.player.location@ == "village"@
        &&& self.player.inventory@.len() == 0
        &&& self.player.flags@ == Set::<Seq<char>>::empty()
        &&& self.world@.dom() == set!["village"@, "forest"@]
        &&& self.world@["village"@].id@ == "village"@
        &&& self.world@["village"@].title@ == "Quiet Village"@
        &&& self.world@["village"@].description@
            == "A small village with a single cobblestone path and a warm lantern glow."@
        &&& self.world@["village"@].exits@.dom() == set!["north"@]
        &&& self.world@["village"@].exits@["north"@]@ == "forest"@
        &&& self.world@["village"@].items@.len() == 1
        &&& self.world@["village"@].items@[0].id@ == "key"@
        &&& self.world@["village"@].items@[0].name@ == "Ancient Key"@
        &&& self.world@["village"@].items@[0].description@
            == "A tarnished key that seems to hum faintly."@
        &&& self.world@["forest"@].id@ == "forest"@
        &&& self.world@["forest"@].title@ == "Whispering Forest"@
        &&& self.world@["forest"@].description@
            == "Tall pines sway as if sharing secrets. The village lies south."@
        &&& self.world@["forest"@].exits@.dom() == set!["south"@]
        &&& self.world@["forest"@].exits@["south"@]@ == "village"@
        &&& self.world@["forest"@].items@.len() == 0
    }

    /// A new game in the two-room demonstration world: the player starts in
    /// the village, where a key lies, and the forest is to the north.
    pub fn new(player_name: &str) -> (r: Self)
        ensures
            r.valid(),
            r.opening(player_name@),
    {
        let player = Player::new(player_name, "village");
        let village = Room::new(
            "village",
            "Quiet Village",
            "A small village with a single cobblestone path and a warm lantern glow.",
        ).with_exit("north", "forest").with_item(
            Item::new("key", "Ancient Key", "A tarnished key that seems to hum faintly."),
        );
        let forest = Room::new(
            "forest",
            "Whispering Forest",
            "Tall pines sway as if sharing secrets. The village lies south.",
        ).with_exit("south", "village");
        proof {
            reveal_strlit("village");
            reveal_strlit("forest");
            assert("village"@ != "forest"@) by {
                assert("village"@.len() != "forest"@.len());
            }
        }
        let mut world: StrMap<Room> = StrMap::new();
        let _ = world.insert(village.id.clone(), village);
        let _ = world.insert(forest.id.clone(), forest);
        let r = GameState { world, player, variables: StrMap::new(), is_over: false };
        proof {
            assert(r.world@.dom() =~= set!["village"@, "forest"@]);
            assert(r.world@["village"@].exits@.dom() =~= set!["north"@]);
            assert(r.world@["forest"@].exits@.dom() =~= set!["south"@]);
            assert forall|id: Seq<char>, dir: Seq<char>|
                r.world@.contains_key(id) && (#[trigger] r.world@[id].exits@.contains_key(
                    dir,
                )) implies r.world@.contains_key(r.world@[id].exits@[dir]@) by {
                if id == "village"@ {
                    assert(dir == "north"@);
                } else {
                    assert(id == "forest"@);
                    assert(dir == "south"@);
                }
            }
        }
        r
    }

    /// Whether the player stands in a room of the world and every exit
    /// leads to a room of the world.
    pub fn is_valid(&self) -> (r: bool)
        requires
            self.wf(),
        ensures
            r == self.valid(),
    {
        if !self.world.contains_key(self.player.location.as_str()) {
            return false;
        }
        let n = self.world.len();
        proof {
            self.world.lemma_entries();
        }
        let mut i: usize = 0;
        while i < n
            invariant
                i <= n,
                self.wf(),
                n == self.world.keys().len(),
                n == self.world.values().len(),
                self.world@.contains_key(self.player.location@),
                forall|k: int, dir: Seq<char>|
                    0 <= k < i && (#[trigger] self.world.values()[k].exits@.contains_key(dir))
                        ==> self.world@.contains_key(self.world.values()[k].exits@[dir]@),
            decreases n - i,
        {
            let room = self.world.value_at(i);
            proof {
                self.world.lemma_entries();
                assert(self.world@[self.world.keys()[i as int]] == *room);
                room.exits.lemma_entries();
            }
            let count = room.exits.len();
            let mut e: usize = 0;
            while e < count
                invariant
                    e <= count,
                    self.wf(),
                    room.exits.wf(),
                    i < n,
                    n == self.world.keys().len(),
                    *room == self.world.values()[i as int],
                    self.world@[self.world.keys()[i as int]] == *room,
                    self.world@.contains_key(self.world.keys()[i as int]),
                    count == room.exits.keys().len(),
                    count == room.exits.values().len(),
                    forall|x: int|
                        0 <= x < e ==> self.world@.contains_key(
                            (#[trigger] room.exits.values()[x])@,
                        ),
                decreases count - e,
            {
                if !self.world.contains_key(room.exits.value_at(e).as_str()) {
                    proof {
                        room.exits.lemma_entries();
                        let id = self.world.keys()[i as int];
                        let dir = room.exits.keys()[e as int];
                        assert(self.world@[id].exits@.contains_key(dir));
                        assert(self.world@[id].exits@[dir] == room.exits.values()[e as int]);
                    }
                    return false;
                }
                e = e + 1;
            }
            proof {
                room.exits.lemma_entries();
                assert forall|dir: Seq<char>| #[trigger]
                    room.exits@.contains_key(dir) implies self.world@.contains_key(
                    room.exits@[dir]@,
                ) by {
                    let x = room.exits.keys().index_of(dir);
                    assert(room.exits.keys()[x] == dir);
                    assert(room.exits@[dir] == room.exits.values()[x]);
                }
            }
            i = i + 1;
        }
        proof {
            self.world.lemma_entries();
            assert forall|id: Seq<char>, dir: Seq<char>|
                self.world@.contains_key(id) && (#[trigger] self.world@[id].exits@.contains_key(
                    dir,
                )) implies self.world@.contains_key(self.world@[id].exits@[dir]@) by {
                let k = self.world.keys().index_of(id);
                assert(self.world.keys()[k] == id);
                assert(self.world@[id] == self.world.values()[k]);
            }
        }
        true
    }

    /// The room the player stands in.
    pub fn current_room(&self) -> (r: &Room)
        requires
            self.wf(),
            self.world@.contains_key(self.player.location@),
        ensures
            *r == self.here(),
            r.wf(),
    {
        match self.world.get(self.player.location.as_str()) {
            Some(room) => room,
            None => vstd::pervasive::unreached(),
        }
    }

    /// A mutable borrow of the room the player stands in. What the caller
    /// leaves in it becomes that room; nothing else changes.
    pub fn current_room_mut(&mut self) -> (r: &mut Room)
        requires
            old(self).wf(),
            old(self).world@.contains_key(old(self).player.location@),
        ensures
            *r == old(self).here(),
            final(self).world@ == old(self).world@.insert(old(self).player.location@, *final(r)),
            final(self).world.wf(),
            final(self).player == old(self).player,
            final(self).variables == old(self).variables,
            final(self).is_over == old(self).is_over,
    {
        match self.world.get_mut(self.player.location.as_str()) {
            Some(room) => room,
            None => vstd::pervasive::unreached(),
        }
    }
}

} // verus!
