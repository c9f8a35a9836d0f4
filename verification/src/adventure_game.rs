//! The world of the command-chain game: rooms, items and monsters known by
//! number, the player, and the game that holds them all.

use vstd::prelude::*;
use crate::adventure::AdventureError;
use crate::idmap::IdMap;
use crate::json::{
    entries_field, flag_field, get_entries, get_flag, get_int, get_list, get_some_int,
    get_some_text, get_text, int_field, integer_of, json_document, json_integer, list_field,
    narrow, narrowed, parse_document, some_int_field, some_text_field, text_field,
};
use crate::strmap::StrMap;
use crate::text::{
    center, centered, contains, join, joined, occurs, repeat, repeated, str_equal, texts,
    to_lowercase, unicode_lower,
};

verus! {

/// What kind of thing an item is.
#[derive(Debug, Clone, Copy, PartialEq, Eq, Structural)]
pub enum ItemType {
    Weapon,
    Armor,
    Treasure,
    Readable,
    Edible,
    Drinkable,
    Container,
    Normal,
}

/// How a monster is disposed towards the player.
#[derive(Debug, Clone, Copy, PartialEq, Eq, Structural)]
pub enum MonsterStatus {
    Friendly,
    Neutral,
    Hostile,
}

/// A thing in the world.
#[derive(Debug, PartialEq, Eq)]
pub struct Item {
    pub id: i32,
    pub name: String,
    pub description: String,
    pub item_type: ItemType,
    pub weight: i32,
    pub value: i32,
    pub is_weapon: bool,
    /// 1 is an axe, 2 a bow, 3 a club, 4 a spear and 5 a sword.
    pub weapon_type: i32,
    pub weapon_dice: i32,
    pub weapon_sides: i32,
    pub is_armor: bool,
    pub armor_value: i32,
    pub is_takeable: bool,
    pub is_wearable: bool,
    /// 0 is the player's inventory, -1 is worn; any other number is that of
    /// the room or of the monster that holds the item.
    pub location: i32,
}

/// The mathematical value of an [`Item`].
pub struct ItemView {
    pub id: i32,
    pub name: Seq<char>,
    pub description: Seq<char>,
    pub item_type: ItemType,
    pub weight: i32,
    pub value: i32,
    pub is_weapon: bool,
    pub weapon_type: i32,
    pub weapon_dice: i32,
    pub weapon_sides: i32,
    pub is_armor: bool,
    pub armor_value: i32,
    pub is_takeable: bool,
    pub is_wearable: bool,
    pub location: i32,
}

impl View for Item {
    type V = ItemView;

    open spec fn view(&self) -> ItemView {
        ItemView {
            id: self.id,
            name: self.name@,
            description: self.description@,
            item_type: self.item_type,
            weight: self.weight,
            value: self.value,
            is_weapon: self.is_weapon,
            weapon_type: self.weapon_type,
            weapon_dice: self.weapon_dice,
            weapon_sides: self.weapon_sides,
            is_armor: self.is_armor,
            armor_value: self.armor_value,
            is_takeable: self.is_takeable,
            is_wearable: self.is_wearable,
            location: self.location,
        }
    }
}

impl Clone for Item {
    fn clone(&self) -> (r: Self)
        ensures
            r == *self,
    {
        Item {
            id: self.id,
            name: self.name.clone(),
            description: self.description.clone(),
            item_type: self.item_type,
            weight: self.weight,
            value: self.value,
            is_weapon: self.is_weapon,
            weapon_type: self.weapon_type,
            weapon_dice: self.weapon_dice,
            weapon_sides: self.weapon_sides,
            is_armor: self.is_armor,
            armor_value: self.armor_value,
            is_takeable: self.is_takeable,
            is_wearable: self.is_wearable,
            location: self.location,
        }
    }
}

/// One throw of a die with `sides` sides. `rand::Rng::gen_range` draws the
/// number from the generator of the thread: all that is known of it is that
/// it lies between 1 and `sides`. A range without a number is not asked for.
#[verifier::external_body]
fn roll_die(sides: i32) -> (r: i32)
    requires
        sides >= 1,
    ensures
        1 <= r <= sides,
{
    rand::Rng::gen_range(&mut rand::thread_rng(), 1..=sides)
}

impl Item {
    /// An item that can be taken, is neither weapon nor armor, and lies in
    /// the inventory; a weapon made of it would throw one die of six sides.
    pub fn new(
        id: i32,
        name: String,
        description: String,
        item_type: ItemType,
        weight: i32,
        value: i32,
    ) -> (r: Self)
        ensures
            r == (Item {
                id,
                name,
                description,
                item_type,
                weight,
                value,
                is_weapon: false,
                weapon_type: 0,
                weapon_dice: 1,
                weapon_sides: 6,
                is_armor: false,
                armor_value: 0,
                is_takeable: true,
                is_wearable: false,
                location: 0,
            }),
    {
        Item {
            id,
            name,
            description,
            item_type,
            weight,
            value,
            is_weapon: false,
            weapon_type: 0,
            weapon_dice: 1,
            weapon_sides: 6,
            is_armor: false,
            armor_value: 0,
            is_takeable: true,
            is_wearable: false,
            location: 0,
        }
    }

    /// Whether the dice of the item can be thrown and summed: it is no
    /// weapon or has no die, or its dice have a side and their largest sum
    /// is in range.
    pub open spec fn can_roll(&self) -> bool {
        !self.is_weapon || self.weapon_dice <= 0 || (self.weapon_sides >= 1 && self.weapon_dice
            * self.weapon_sides <= i32::MAX)
    }

    /// The damage that the item does this time: nothing for what is no
    /// weapon; for a weapon the sum of its dice, each thrown anew.
    pub fn get_damage(&self) -> (r: i32)
        requires
            self.can_roll(),
        ensures
            !self.is_weapon || self.weapon_dice <= 0 ==> r == 0,
            self.is_weapon && self.weapon_dice > 0 ==> self.weapon_dice <= r <= self.weapon_dice
                * self.weapon_sides,
    {
        if !self.is_weapon {
            return 0;
        }
        let mut total: i32 = 0;
        let mut thrown: i32 = 0;
        while thrown < self.weapon_dice
            invariant
                self.is_weapon,
                self.can_roll(),
                0 <= thrown,
                thrown <= self.weapon_dice || self.weapon_dice <= 0,
                self.weapon_dice <= 0 ==> thrown == 0 && total == 0,
                thrown <= total <= thrown * self.weapon_sides,
            decreases self.weapon_dice - thrown,
        {
            let die = roll_die(self.weapon_sides);
            assert((thrown + 1) * self.weapon_sides <= self.weapon_dice * self.weapon_sides)
                by (nonlinear_arith)
                requires
                    thrown + 1 <= self.weapon_dice,
                    self.weapon_sides >= 1,
            ;
            assert((thrown + 1) * self.weapon_sides == thrown * self.weapon_sides
                + self.weapon_sides) by (nonlinear_arith);
            total = total + die;
            thrown = thrown + 1;
        }
        total
    }

    /// The damage that the item does this time, where its dice can be
    /// thrown and summed; nothing where they cannot.
    pub fn damage(&self) -> (r: Option<i32>)
        ensures
            r is Some <==> self.can_roll(),
            r is Some && (!self.is_weapon || self.weapon_dice <= 0) ==> r->0 == 0,
            r is Some && self.is_weapon && self.weapon_dice > 0 ==> self.weapon_dice <= r->0
                <= self.weapon_dice * self.weapon_sides,
    {
        let dice = self.weapon_dice as i64;
        let sides = self.weapon_sides as i64;
        assert(-0x4000_0000_0000_0000 <= dice * sides <= 0x4000_0000_0000_0000)
            by (nonlinear_arith)
            requires
                -0x8000_0000 <= dice <= 0x8000_0000,
                -0x8000_0000 <= sides <= 0x8000_0000,
        ;
        let in_range = !self.is_weapon || dice <= 0 || (sides >= 1 && dice * sides
            <= 0x7fff_ffff);
        if in_range {
            Some(self.get_damage())
        } else {
            None
        }
    }
}

/// A creature in the world.
#[derive(Debug, PartialEq, Eq)]
pub struct Monster {
    pub id: i32,
    pub name: String,
    pub description: String,
    pub room_id: i32,
    /// The largest health the monster can have.
    pub hardiness: i32,
    pub agility: i32,
    pub friendliness: MonsterStatus,
    pub courage: i32,
    pub weapon_id: Option<i32>,
    pub armor_worn: i32,
    pub gold: i32,
    pub is_dead: bool,
    pub current_health: Option<i32>,
}

/// The mathematical value of a [`Monster`].
pub struct MonsterView {
    pub id: i32,
    pub name: Seq<char>,
    pub description: Seq<char>,
    pub room_id: i32,
    pub hardiness: i32,
    pub agility: i32,
    pub friendliness: MonsterStatus,
    pub courage: i32,
    pub weapon_id: Option<i32>,
    pub armor_worn: i32,
    pub gold: i32,
    pub is_dead: bool,
    pub current_health: Option<i32>,
}

impl View for Monster {
    type V = MonsterView;

    open spec fn view(&self) -> MonsterView {
        MonsterView {
            id: self.id,
            name: self.name@,
            description: self.description@,
            room_id: self.room_id,
            hardiness: self.hardiness,
            agility: self.agility,
            friendliness: self.friendliness,
            courage: self.courage,
            weapon_id: self.weapon_id,
            armor_worn: self.armor_worn,
            gold: self.gold,
            is_dead: self.is_dead,
            current_health: self.current_health,
        }
    }
}

impl Clone for Monster {
    fn clone(&self) -> (r: Self)
        ensures
            r == *self,
    {
        Monster {
            id: self.id,
            name: self.name.clone(),
            description: self.description.clone(),
            room_id: self.room_id,
            hardiness: self.hardiness,
            agility: self.agility,
            friendliness: self.friendliness,
            courage: self.courage,
            weapon_id: self.weapon_id,
            armor_worn: self.armor_worn,
            gold: self.gold,
            is_dead: self.is_dead,
            current_health: self.current_health,
        }
    }
}

impl Monster {
    /// A living monster in full health, without weapon, armor or gold.
    pub fn new(
        id: i32,
        name: String,
        description: String,
        room_id: i32,
        hardiness: i32,
        agility: i32,
        friendliness: MonsterStatus,
        courage: i32,
    ) -> (r: Self)
        ensures
            r == (Monster {
                id,
                name,
                description,
                room_id,
                hardiness,
                agility,
                friendliness,
                courage,
                weapon_id: None,
                armor_worn: 0,
                gold: 0,
                is_dead: false,
                current_health: Some(hardiness),
            }),
    {
        Monster {
            id,
            name,
            description,
            room_id,
            hardiness,
            agility,
            friendliness,
            courage,
            weapon_id: None,
            armor_worn: 0,
            gold: 0,
            is_dead: false,
            current_health: Some(hardiness),
        }
    }
}

/// A place in the world.
#[derive(Debug, Clone, PartialEq, Eq)]
pub struct Room {
    pub id: i32,
    pub name: String,
    pub description: String,
    /// Direction to the number of the room that lies there.
    pub exits: StrMap<i32>,
    pub is_dark: bool,
}

/// The mathematical value of a [`Room`].
pub struct RoomView {
    pub id: i32,
    pub name: Seq<char>,
    pub description: Seq<char>,
    pub exits: Map<Seq<char>, i32>,
    pub is_dark: bool,
}

impl View for Room {
    type V = RoomView;

    open spec fn view(&self) -> RoomView {
        RoomView {
            id: self.id,
            name: self.name@,
            description: self.description@,
            exits: self.exits@,
            is_dark: self.is_dark,
        }
    }
}

impl Room {
    /// The invariant of a room: its exit map is well formed.
    pub open spec fn wf(&self) -> bool {
        self.exits.wf()
    }

    /// A lit room without exits.
    pub fn new(id: i32, name: String, description: String) -> (r: Self)
        ensures
            r.wf(),
            r.id == id,
            r.name == name,
            r.description == description,
            r.exits@ == Map::<Seq<char>, i32>::empty(),
            !r.is_dark,
    {
        Room { id, name, description, exits: StrMap::new(), is_dark: false }
    }

    /// The room that lies in `direction`: behind the exit of that name as
    /// it is given, or else behind the exit of that name in lower case.
    pub fn get_exit(&self, direction: &str) -> (r: Option<i32>)
        requires
            self.wf(),
        ensures
            r == self.exit_to(direction@),
            self.exits@.contains_key(direction@) ==> r == Some(self.exits@[direction@]),
    {
        match self.exits.get(direction) {
            Some(dest) => Some(*dest),
            None => {
                let key = crate::text::to_lowercase(direction);
                match self.exits.get(key.as_str()) {
                    Some(dest) => Some(*dest),
                    None => None,
                }
            },
        }
    }

    /// The room that lies in `direction`: behind the exit of that name as
    /// it is given, or else behind the exit of that name in lower case.
    pub open spec fn exit_to(&self, direction: Seq<char>) -> Option<i32> {
        let key = crate::text::unicode_lower(direction);
        if self.exits@.contains_key(direction) {
            Some(self.exits@[direction])
        } else if self.exits@.contains_key(key) {
            Some(self.exits@[key])
        } else {
            None
        }
    }
}

/// The player of the command-chain game.
#[derive(Debug, Clone, PartialEq, Eq)]
pub struct Player {
    pub name: String,
    pub hardiness: i32,
    pub agility: i32,
    pub charisma: i32,
    /// Kind of weapon to the skill with it.
    pub weapon_ability: IdMap<i32>,
    pub armor_expertise: i32,
    pub gold: i32,
    pub current_room: i32,
    pub current_health: Option<i32>,
    /// The numbers of the items carried; a number may occur twice.
    pub inventory: Vec<i32>,
    pub equipped_weapon: Option<i32>,
    pub equipped_armor: Option<i32>,
}

/// The mathematical value of a [`Player`].
pub struct PlayerView {
    pub name: Seq<char>,
    pub hardiness: i32,
    pub agility: i32,
    pub charisma: i32,
    pub weapon_ability: Map<i32, i32>,
    pub armor_expertise: i32,
    pub gold: i32,
    pub current_room: i32,
    pub current_health: Option<i32>,
    pub inventory: Seq<i32>,
    pub equipped_weapon: Option<i32>,
    pub equipped_armor: Option<i32>,
}

impl View for Player {
    type V = PlayerView;

    open spec fn view(&self) -> PlayerView {
        PlayerView {
            name: self.name@,
            hardiness: self.hardiness,
            agility: self.agility,
            charisma: self.charisma,
            weapon_ability: self.weapon_ability@,
            armor_expertise: self.armor_expertise,
            gold: self.gold,
            current_room: self.current_room,
            current_health: self.current_health,
            inventory: self.inventory@,
            equipped_weapon: self.equipped_weapon,
            equipped_armor: self.equipped_armor,
        }
    }
}

impl Player {
    /// The invariant of the player: the ability map is well formed.
    pub open spec fn wf(&self) -> bool {
        self.weapon_ability.wf()
    }

    /// An adventurer of average build in room 1, with 200 pieces of gold
    /// and a skill of 5 with each of the five kinds of weapon.
    /// Whether the player is as a new player is, but for the name: of
    /// average build, in full health, in room 1, with 200 pieces of gold, a
    /// skill of 5 with each of the five kinds of weapon, and nothing carried
    /// or worn.
    pub open spec fn fresh(&self) -> bool {
        &&& self.wf()
        &&& self.hardiness == 12
        &&& self.agility == 12
        &&& self.charisma == 12
        &&& self.weapon_ability@.dom() == set![1i32, 2i32, 3i32, 4i32, 5i32]
        &&& forall|k: i32| 1 <= k <= 5 ==> self.weapon_ability@[k] == 5
        &&& self.armor_expertise == 0
        &&& self.gold == 200
        &&& self.current_room == 1
        &&& self.current_health == Some(12i32)
        &&& self.inventory@.len() == 0
        &&& self.equipped_weapon is None
        &&& self.equipped_armor is None
    }

    /// A new player called Adventurer.
    pub fn new() -> (r: Self)
        ensures
            r.fresh(),
            r.name@ == "Adventurer"@,
    {
        let mut weapon_ability: IdMap<i32> = IdMap::new();
        let mut i: i32 = 1;
        while i <= 5
            invariant
                1 <= i <= 6,
                weapon_ability.wf(),
                forall|k: i32| #[trigger] weapon_ability@.contains_key(k) <==> 1 <= k < i,
                forall|k: i32| 1 <= k < i ==> weapon_ability@[k] == 5,
            decreases 6 - i,
        {
            let _ = weapon_ability.insert(i, 5);
            i = i + 1;
        }
        assert(weapon_ability@.dom() =~= set![1i32, 2i32, 3i32, 4i32, 5i32]);
        Player {
            name: String::from_str("Adventurer"),
            hardiness: 12,
            agility: 12,
            charisma: 12,
            weapon_ability,
            armor_expertise: 0,
            gold: 200,
            current_room: 1,
            current_health: Some(12),
            inventory: Vec::new(),
            equipped_weapon: None,
            equipped_armor: None,
        }
    }
}

/// The kind of item that a document calls `name`: one of the seven named
/// kinds, and a normal item for any other name or none.
pub open spec fn item_type_named(name: Option<Seq<char>>) -> ItemType {
    if name == Some("weapon"@) {
        ItemType::Weapon
    } else if name == Some("armor"@) {
        ItemType::Armor
    } else if name == Some("treasure"@) {
        ItemType::Treasure
    } else if name == Some("readable"@) {
        ItemType::Readable
    } else if name == Some("edible"@) {
        ItemType::Edible
    } else if name == Some("drinkable"@) {
        ItemType::Drinkable
    } else if name == Some("container"@) {
        ItemType::Container
    } else {
        ItemType::Normal
    }
}

/// The disposition that a document calls `name`: neutral unless it says
/// friendly or hostile.
pub open spec fn disposition_named(name: Option<Seq<char>>) -> MonsterStatus {
    if name == Some("friendly"@) {
        MonsterStatus::Friendly
    } else if name == Some("hostile"@) {
        MonsterStatus::Hostile
    } else {
        MonsterStatus::Neutral
    }
}

/// The number under `key`, or `default`, cut down to 32 bits.
pub open spec fn number(v: serde_json::Value, key: Seq<char>, default: i64) -> i32 {
    narrowed(int_field(v, key, default))
}

/// The exits that the members of a document's exit object describe: each
/// name leads to its number, or to 0 where the member is no whole number.
pub open spec fn exits_from(entries: Seq<(Seq<char>, serde_json::Value)>) -> Map<Seq<char>, i32>
    decreases entries.len(),
{
    if entries.len() == 0 {
        Map::empty()
    } else {
        exits_from(entries.drop_last()).insert(
            entries.last().0,
            narrowed(
                match json_integer(entries.last().1) {
                    Some(n) => n,
                    None => 0,
                },
            ),
        )
    }
}

/// The room that the document `v` describes. What is missing is empty,
/// zero or false.
pub open spec fn room_read(v: serde_json::Value) -> RoomView {
    RoomView {
        id: number(v, "id"@, 0),
        name: text_field(v, "name"@, ""@),
        description: text_field(v, "description"@, ""@),
        exits: match entries_field(v, "exits"@) {
            Some(entries) => exits_from(entries),
            None => Map::empty(),
        },
        is_dark: flag_field(v, "is_dark"@, false),
    }
}

/// The item that the document `v` describes. What is missing is empty,
/// zero or false, but: the weight is 1, a weapon throws one die of six
/// sides, and the item can be taken.
pub open spec fn item_read(v: serde_json::Value) -> ItemView {
    ItemView {
        id: number(v, "id"@, 0),
        name: text_field(v, "name"@, ""@),
        description: text_field(v, "description"@, ""@),
        item_type: item_type_named(some_text_field(v, "type"@)),
        weight: number(v, "weight"@, 1),
        value: number(v, "value"@, 0),
        is_weapon: flag_field(v, "is_weapon"@, false),
        weapon_type: number(v, "weapon_type"@, 0),
        weapon_dice: number(v, "weapon_dice"@, 1),
        weapon_sides: number(v, "weapon_sides"@, 6),
        is_armor: flag_field(v, "is_armor"@, false),
        armor_value: number(v, "armor_value"@, 0),
        is_takeable: flag_field(v, "is_takeable"@, true),
        is_wearable: flag_field(v, "is_wearable"@, false),
        location: number(v, "location"@, 0),
    }
}

/// The monster that the document `v` describes: alive and in full health.
/// What is missing is empty or zero, but: the room is 1, hardiness and
/// agility are 10, and courage is 100.
pub open spec fn monster_read(v: serde_json::Value) -> MonsterView {
    MonsterView {
        id: number(v, "id"@, 0),
        name: text_field(v, "name"@, ""@),
        description: text_field(v, "description"@, ""@),
        room_id: number(v, "room_id"@, 1),
        hardiness: number(v, "hardiness"@, 10),
        agility: number(v, "agility"@, 10),
        friendliness: disposition_named(some_text_field(v, "friendliness"@)),
        courage: number(v, "courage"@, 100),
        weapon_id: match some_int_field(v, "weapon_id"@) {
            Some(n) => Some(narrowed(n)),
            None => None,
        },
        armor_worn: number(v, "armor_worn"@, 0),
        gold: number(v, "gold"@, 0),
        is_dead: false,
        current_health: Some(number(v, "hardiness"@, 10)),
    }
}

fn read_number(v: &serde_json::Value, key: &str, default: i64) -> (r: i32)
    ensures
        r == number(*v, key@, default),
{
    narrow(get_int(v, key, default))
}

fn read_exits(v: &serde_json::Value) -> (r: StrMap<i32>)
    ensures
        r.wf(),
        r@ == match entries_field(*v, "exits"@) {
            Some(entries) => exits_from(entries),
            None => Map::empty(),
        },
{
    let mut exits: StrMap<i32> = StrMap::new();
    match get_entries(v, "exits") {
        Some(entries) => {
            let ghost all = entries_field(*v, "exits"@)->0;
            let mut i: usize = 0;
            assert(all.subrange(0, 0) =~= Seq::empty());
            while i < entries.len()
                invariant
                    i <= entries@.len(),
                    entries@.len() == all.len(),
                    forall|k: int|
                        0 <= k < entries@.len() ==> (#[trigger] entries@[k]).0@ == all[k].0
                            && *entries@[k].1 == all[k].1,
                    exits.wf(),
                    exits@ == exits_from(all.subrange(0, i as int)),
                decreases entries@.len() - i,
            {
                let number = match integer_of(entries[i].1) {
                    Some(n) => n,
                    None => 0,
                };
                proof {
                    let now = all.subrange(0, i + 1);
                    assert(now.drop_last() =~= all.subrange(0, i as int));
                    assert(now.last() == all[i as int]);
                }
                let _ = exits.insert(entries[i].0.clone(), narrow(number));
                i = i + 1;
            }
            assert(all.subrange(0, all.len() as int) =~= all);
        },
        None => {},
    }
    exits
}

fn read_room(v: &serde_json::Value) -> (r: Room)
    ensures
        r.wf(),
        r@ == room_read(*v),
{
    Room {
        id: read_number(v, "id", 0),
        name: get_text(v, "name", ""),
        description: get_text(v, "description", ""),
        exits: read_exits(v),
        is_dark: get_flag(v, "is_dark", false),
    }
}

fn read_item_type(v: &serde_json::Value) -> (r: ItemType)
    ensures
        r == item_type_named(some_text_field(*v, "type"@)),
{
    match get_some_text(v, "type") {
        Some(name) => {
            if str_equal(name, "weapon") {
                ItemType::Weapon
            } else if str_equal(name, "armor") {
                ItemType::Armor
            } else if str_equal(name, "treasure") {
                ItemType::Treasure
            } else if str_equal(name, "readable") {
                ItemType::Readable
            } else if str_equal(name, "edible") {
                ItemType::Edible
            } else if str_equal(name, "drinkable") {
                ItemType::Drinkable
            } else if str_equal(name, "container") {
                ItemType::Container
            } else {
                ItemType::Normal
            }
        },
        None => ItemType::Normal,
    }
}

fn read_item(v: &serde_json::Value) -> (r: Item)
    ensures
        r@ == item_read(*v),
{
    Item {
        id: read_number(v, "id", 0),
        name: get_text(v, "name", ""),
        description: get_text(v, "description", ""),
        item_type: read_item_type(v),
        weight: read_number(v, "weight", 1),
        value: read_number(v, "value", 0),
        is_weapon: get_flag(v, "is_weapon", false),
        weapon_type: read_number(v, "weapon_type", 0),
        weapon_dice: read_number(v, "weapon_dice", 1),
        weapon_sides: read_number(v, "weapon_sides", 6),
        is_armor: get_flag(v, "is_armor", false),
        armor_value: read_number(v, "armor_value", 0),
        is_takeable: get_flag(v, "is_takeable", true),
        is_wearable: get_flag(v, "is_wearable", false),
        location: read_number(v, "location", 0),
    }
}

fn read_monster(v: &serde_json::Value) -> (r: Monster)
    ensures
        r@ == monster_read(*v),
{
    let friendliness = match get_some_text(v, "friendliness") {
        Some(name) => {
            if str_equal(name, "friendly") {
                MonsterStatus::Friendly
            } else if str_equal(name, "hostile") {
                MonsterStatus::Hostile
            } else {
                MonsterStatus::Neutral
            }
        },
        None => MonsterStatus::Neutral,
    };
    let mut monster = Monster::new(
        read_number(v, "id", 0),
        get_text(v, "name", ""),
        get_text(v, "description", ""),
        read_number(v, "room_id", 1),
        read_number(v, "hardiness", 10),
        read_number(v, "agility", 10),
        friendliness,
        read_number(v, "courage", 100),
    );
    monster.weapon_id = match get_some_int(v, "weapon_id") {
        Some(n) => Some(narrow(n)),
        None => None,
    };
    monster.armor_worn = read_number(v, "armor_worn", 0);
    monster.gold = read_number(v, "gold", 0);
    monster
}

/// The mathematical values of the entries of a map.
pub open spec fn views_of<T: View>(m: Map<i32, T>) -> Map<i32, T::V> {
    Map::new(|k: i32| m.contains_key(k), |k: i32| m[k]@)
}

/// The rooms once each of `elements` has been read and stored under the
/// number it gives itself, in order: of two with one number the later stays.
pub open spec fn stored_rooms(before: Map<i32, RoomView>, elements: Seq<serde_json::Value>) -> Map<
    i32,
    RoomView,
>
    decreases elements.len(),
{
    if elements.len() == 0 {
        before
    } else {
        let record = room_read(elements.last());
        stored_rooms(before, elements.drop_last()).insert(record.id, record)
    }
}

/// The items once each of `elements` has been read and stored under the
/// number it gives itself, in order: of two with one number the later stays.
pub open spec fn stored_items(before: Map<i32, ItemView>, elements: Seq<serde_json::Value>) -> Map<
    i32,
    ItemView,
>
    decreases elements.len(),
{
    if elements.len() == 0 {
        before
    } else {
        let record = item_read(elements.last());
        stored_items(before, elements.drop_last()).insert(record.id, record)
    }
}

/// The monsters once each of `elements` has been read and stored under the
/// number it gives itself, in order: of two with one number the later stays.
pub open spec fn stored_monsters(before: Map<i32, MonsterView>, elements: Seq<serde_json::Value>) -> Map<
    i32,
    MonsterView,
>
    decreases elements.len(),
{
    if elements.len() == 0 {
        before
    } else {
        let record = monster_read(elements.last());
        stored_monsters(before, elements.drop_last()).insert(record.id, record)
    }
}

/// What is printed when an adventure has been loaded: the title in the
/// middle of a line between two lines of sixty equal signs, and the
/// introduction if there is one.
pub open spec fn banner(title: Seq<char>, intro: Seq<char>) -> Seq<char> {
    "\n"@ + repeated('=', 60) + "\n"@ + centered(title, 60) + "\n"@ + repeated('=', 60) + "\n\n"@
        + if intro.len() > 0 {
        intro + "\n\n"@
    } else {
        Seq::empty()
    }
}

/// The game: the world, the player and what the adventure brought along.
#[derive(Debug)]
pub struct AdventureGame {
    pub adventure_file: String,
    pub rooms: IdMap<Room>,
    pub items: IdMap<Item>,
    pub monsters: IdMap<Monster>,
    pub player: Player,
    /// The members of the party.
    pub companions: Vec<String>,
    pub turn_count: i32,
    pub game_over: bool,
    pub adventure_title: String,
    pub adventure_intro: String,
    /// The special events of the adventure, as its document gives them.
    pub effects: Vec<serde_json::Value>,
    /// The quests of the adventure, as its document gives them.
    pub quests: Vec<serde_json::Value>,
}

/// The mathematical value of an [`AdventureGame`]: the world model as
/// such, whatever the order in which its maps were filled.
pub struct AdventureGameView {
    pub adventure_file: Seq<char>,
    pub rooms: Map<i32, RoomView>,
    pub items: Map<i32, ItemView>,
    pub monsters: Map<i32, MonsterView>,
    pub player: PlayerView,
    pub companions: Seq<Seq<char>>,
    pub turn_count: i32,
    pub game_over: bool,
    pub adventure_title: Seq<char>,
    pub adventure_intro: Seq<char>,
    pub effects: Seq<serde_json::Value>,
    pub quests: Seq<serde_json::Value>,
}

impl View for AdventureGame {
    type V = AdventureGameView;

    open spec fn view(&self) -> AdventureGameView {
        AdventureGameView {
            adventure_file: self.adventure_file@,
            rooms: views_of(self.rooms@),
            items: views_of(self.items@),
            monsters: views_of(self.monsters@),
            player: self.player@,
            companions: texts(self.companions@),
            turn_count: self.turn_count,
            game_over: self.game_over,
            adventure_title: self.adventure_title@,
            adventure_intro: self.adventure_intro@,
            effects: self.effects@,
            quests: self.quests@,
        }
    }
}

impl AdventureGame {
    /// The invariant of the containers the game is made of.
    pub open spec fn wf(&self) -> bool {
        &&& self.rooms.wf()
        &&& self.items.wf()
        &&& self.monsters.wf()
        &&& self.player.wf()
        &&& forall|id: i32| self.rooms@.contains_key(id) ==> (#[trigger] self.rooms@[id]).wf()
    }

    /// A game without a world yet, for the adventure in `adventure_file`.
    pub fn new(adventure_file: String) -> (r: Self)
        ensures
            r.wf(),
            r.adventure_file == adventure_file,
            r.rooms@ == Map::<i32, Room>::empty(),
            r.items@ == Map::<i32, Item>::empty(),
            r.monsters@ == Map::<i32, Monster>::empty(),
            r.player.fresh(),
            r.player.name@ == "Adventurer"@,
            r.companions@.len() == 0,
            r.turn_count == 0,
            !r.game_over,
            r.adventure_title@.len() == 0,
            r.adventure_intro@.len() == 0,
            r.effects@.len() == 0,
            r.quests@.len() == 0,
    {
        AdventureGame {
            adventure_file,
            rooms: IdMap::new(),
            items: IdMap::new(),
            monsters: IdMap::new(),
            player: Player::new(),
            companions: Vec::new(),
            turn_count: 0,
            game_over: false,
            adventure_title: String::new(),
            adventure_intro: String::new(),
            effects: Vec::new(),
            quests: Vec::new(),
        }
    }

    fn store_rooms(&mut self, elements: &Vec<serde_json::Value>)
        requires
            old(self).wf(),
        ensures
            final(self).wf(),
            views_of(final(self).rooms@) == stored_rooms(views_of(old(self).rooms@), elements@),
            *final(self) == (AdventureGame { rooms: final(self).rooms, ..*old(self) }),
    {
        let mut i: usize = 0;
        assert(elements@.subrange(0, 0) =~= Seq::empty());
        while i < elements.len()
            invariant
                i <= elements@.len(),
                self.wf(),
                *self == (AdventureGame { rooms: self.rooms, ..*old(self) }),
                views_of(self.rooms@) == stored_rooms(
                    views_of(old(self).rooms@),
                    elements@.subrange(0, i as int),
                ),
            decreases elements@.len() - i,
        {
            let room = read_room(&elements[i]);
            let ghost before = self.rooms@;
            proof {
                let now = elements@.subrange(0, i + 1);
                assert(now.drop_last() =~= elements@.subrange(0, i as int));
                assert(now.last() == elements@[i as int]);
            }
            let _ = self.rooms.insert(room.id, room);
            assert(views_of(self.rooms@) =~= views_of(before).insert(room.id, room@));
            i = i + 1;
        }
        assert(elements@.subrange(0, elements@.len() as int) =~= elements@);
    }

    fn store_items(&mut self, elements: &Vec<serde_json::Value>)
        requires
            old(self).wf(),
        ensures
            final(self).wf(),
            views_of(final(self).items@) == stored_items(views_of(old(self).items@), elements@),
            *final(self) == (AdventureGame { items: final(self).items, ..*old(self) }),
    {
        let mut i: usize = 0;
        assert(elements@.subrange(0, 0) =~= Seq::empty());
        while i < elements.len()
            invariant
                i <= elements@.len(),
                self.wf(),
                *self == (AdventureGame { items: self.items, ..*old(self) }),
                views_of(self.items@) == stored_items(
                    views_of(old(self).items@),
                    elements@.subrange(0, i as int),
                ),
            decreases elements@.len() - i,
        {
            let item = read_item(&elements[i]);
            let ghost before = self.items@;
            proof {
                let now = elements@.subrange(0, i + 1);
                assert(now.drop_last() =~= elements@.subrange(0, i as int));
                assert(now.last() == elements@[i as int]);
            }
            let _ = self.items.insert(item.id, item);
            assert(views_of(self.items@) =~= views_of(before).insert(item.id, item@));
            i = i + 1;
        }
        assert(elements@.subrange(0, elements@.len() as int) =~= elements@);
    }

    fn store_monsters(&mut self, elements: &Vec<serde_json::Value>)
        requires
            old(self).wf(),
        ensures
            final(self).wf(),
            views_of(final(self).monsters@) == stored_monsters(
                views_of(old(self).monsters@),
                elements@,
            ),
            *final(self) == (AdventureGame { monsters: final(self).monsters, ..*old(self) }),
    {
        let mut i: usize = 0;
        assert(elements@.subrange(0, 0) =~= Seq::empty());
        while i < elements.len()
            invariant
                i <= elements@.len(),
                self.wf(),
                *self == (AdventureGame { monsters: self.monsters, ..*old(self) }),
                views_of(self.monsters@) == stored_monsters(
                    views_of(old(self).monsters@),
                    elements@.subrange(0, i as int),
                ),
            decreases elements@.len() - i,
        {
            let monster = read_monster(&elements[i]);
            let ghost before = self.monsters@;
            proof {
                let now = elements@.subrange(0, i + 1);
                assert(now.drop_last() =~= elements@.subrange(0, i as int));
                assert(now.last() == elements@[i as int]);
            }
            let _ = self.monsters.insert(monster.id, monster);
            assert(views_of(self.monsters@) =~= views_of(before).insert(monster.id, monster@));
            i = i + 1;
        }
        assert(elements@.subrange(0, elements@.len() as int) =~= elements@);
    }

    /// Whether `after` is the game `self` once the document `data` has been
    /// loaded into it: title and introduction are the document's; rooms,
    /// items and monsters of the document are stored over what was there;
    /// effects and quests are replaced where the document has them; and the
    /// player stands in the start room, which is room 1 if none is named.
    pub open spec fn loaded(&self, data: serde_json::Value, after: AdventureGame) -> bool {
        &&& after.adventure_file == self.adventure_file
        &&& after.companions == self.companions
        &&& after.turn_count == self.turn_count
        &&& after.game_over == self.game_over
        &&& after.adventure_title@ == text_field(data, "title"@, "Untitled Adventure"@)
        &&& after.adventure_intro@ == text_field(data, "intro"@, ""@)
        &&& views_of(after.rooms@) == match list_field(data, "rooms"@) {
            Some(elements) => stored_rooms(views_of(self.rooms@), elements),
            None => views_of(self.rooms@),
        }
        &&& views_of(after.items@) == match list_field(data, "items"@) {
            Some(elements) => stored_items(views_of(self.items@), elements),
            None => views_of(self.items@),
        }
        &&& views_of(after.monsters@) == match list_field(data, "monsters"@) {
            Some(elements) => stored_monsters(views_of(self.monsters@), elements),
            None => views_of(self.monsters@),
        }
        &&& after.effects@ == match list_field(data, "effects"@) {
            Some(elements) => elements,
            None => self.effects@,
        }
        &&& after.quests@ == match list_field(data, "quests"@) {
            Some(elements) => elements,
            None => self.quests@,
        }
        &&& after.player == (Player {
            current_room: number(data, "start_room"@, 1),
            ..self.player
        })
    }

    /// Loads the document `data` into the game and returns what is to be
    /// printed: the banner of the adventure.
    pub fn load_document(&mut self, data: &serde_json::Value) -> (r: String)
        requires
            old(self).wf(),
        ensures
            final(self).wf(),
            old(self).loaded(*data, *final(self)),
            r@ == banner(final(self).adventure_title@, final(self).adventure_intro@),
    {
        self.adventure_title = get_text(data, "title", "Untitled Adventure");
        self.adventure_intro = get_text(data, "intro", "");
        match get_list(data, "rooms") {
            Some(rooms) => self.store_rooms(rooms),
            None => {},
        }
        match get_list(data, "items") {
            Some(items) => self.store_items(items),
            None => {},
        }
        match get_list(data, "monsters") {
            Some(monsters) => self.store_monsters(monsters),
            None => {},
        }
        match get_list(data, "effects") {
            Some(effects) => {
                self.effects = effects.clone();
                assert(self.effects@ =~= effects@);
            },
            None => {},
        }
        match get_list(data, "quests") {
            Some(quests) => {
                self.quests = quests.clone();
                assert(self.quests@ =~= quests@);
            },
            None => {},
        }
        self.player.current_room = read_number(data, "start_room", 1);
        proof {
            reveal_strlit("=");
        }
        let rule = repeat("=", 60);
        let mut out = String::from_str("\n");
        out.append(rule.as_str());
        out.append("\n");
        out.append(center(self.adventure_title.as_str(), 60).as_str());
        out.append("\n");
        out.append(rule.as_str());
        out.append("\n\n");
        if self.adventure_intro.as_str().unicode_len() > 0 {
            out.append(self.adventure_intro.as_str());
            out.append("\n\n");
        } else {
            assert(out@ =~= out@ + Seq::<char>::empty());
        }
        out
    }

    /// Loads the adventure whose document is the JSON text `content`, and
    /// returns what is to be printed. Text that is not JSON leaves the game
    /// as it is.
    pub fn load_adventure(&mut self, content: &str) -> (r: Result<String, AdventureError>)
        requires
            old(self).wf(),
        ensures
            final(self).wf(),
            r is Ok <==> json_document(content@) is Some,
            r is Ok ==> old(self).loaded(json_document(content@)->0, *final(self)) && r->Ok_0@
                == banner(final(self).adventure_title@, final(self).adventure_intro@),
            r is Err ==> r->Err_0 is Json && *final(self) == *old(self),
    {
        match parse_document(content) {
            Ok(data) => Ok(self.load_document(&data)),
            Err(e) => Err(AdventureError::Json(e)),
        }
    }
}

/// The items of `items` that lie in `room`, in order.
pub open spec fn items_in(items: Seq<Item>, room: i32) -> Seq<Item> {
    items.filter(|i: Item| i.location == room)
}

/// The monsters of `monsters` that are in `room` and alive, in order.
pub open spec fn living_in(monsters: Seq<Monster>, room: i32) -> Seq<Monster> {
    monsters.filter(|m: Monster| m.room_id == room && !m.is_dead)
}

proof fn lemma_items_in_step(items: Seq<Item>, i: int, room: i32)
    requires
        0 <= i < items.len(),
    ensures
        items_in(items.subrange(0, i + 1), room) == if items[i].location == room {
            items_in(items.subrange(0, i), room).push(items[i])
        } else {
            items_in(items.subrange(0, i), room)
        },
{
    reveal(Seq::filter);
    assert(items.subrange(0, i + 1).drop_last() =~= items.subrange(0, i));
}

proof fn lemma_living_in_step(monsters: Seq<Monster>, i: int, room: i32)
    requires
        0 <= i < monsters.len(),
    ensures
        living_in(monsters.subrange(0, i + 1), room) == if monsters[i].room_id == room
            && !monsters[i].is_dead {
            living_in(monsters.subrange(0, i), room).push(monsters[i])
        } else {
            living_in(monsters.subrange(0, i), room)
        },
{
    reveal(Seq::filter);
    assert(monsters.subrange(0, i + 1).drop_last() =~= monsters.subrange(0, i));
}

/// One line per item: two blanks, a dash, a blank and the name.
pub open spec fn item_lines(items: Seq<Item>) -> Seq<char>
    decreases items.len(),
{
    if items.len() == 0 {
        Seq::empty()
    } else {
        item_lines(items.drop_last()) + "  - "@ + items.last().name@ + "\n"@
    }
}

/// What is said of a monster's disposition behind its name.
pub open spec fn disposition_note(status: MonsterStatus) -> Seq<char> {
    match status {
        MonsterStatus::Friendly => " (friendly)"@,
        MonsterStatus::Hostile => " (hostile)"@,
        MonsterStatus::Neutral => ""@,
    }
}

/// One line per monster: two blanks, a dash, a blank, the name and the
/// disposition.
pub open spec fn monster_lines(monsters: Seq<Monster>) -> Seq<char>
    decreases monsters.len(),
{
    if monsters.len() == 0 {
        Seq::empty()
    } else {
        monster_lines(monsters.drop_last()) + "  - "@ + monsters.last().name@ + disposition_note(
            monsters.last().friendliness,
        ) + "\n"@
    }
}

/// The number of bytes that `s` takes in UTF-8.
pub open spec fn byte_len(s: Seq<char>) -> nat {
    (vstd::utf8::encode_utf8(s).len() as usize) as nat
}

/// What a look at `room` shows of the room itself: the name, underlined
/// with one dash for each byte of it, the description, and the exits in
/// ascending order.
pub open spec fn room_text(room: Room) -> Seq<char> {
    "\n"@ + room.name@ + "\n"@ + repeated('-', byte_len(room.name@)) + "\n"@ + room.description@ + "\n"@ + if room.exits.keys().len() > 0 {
        "\nObvious exits: "@ + joined(room.exits.keys(), ", "@) + "\n"@
    } else {
        "\nNo obvious exits.\n"@
    }
}

impl AdventureGame {
    /// The room the player stands in, if it is a room of the world.
    pub fn get_current_room(&self) -> (r: Option<&Room>)
        requires
            self.wf(),
        ensures
            r is Some == self.rooms@.contains_key(self.player.current_room),
            r is Some ==> *r->0 == self.rooms@[self.player.current_room] && r->0.wf(),
    {
        self.rooms.get(self.player.current_room)
    }

    /// The items that lie in the room `room_id`, in ascending order of
    /// their numbers.
    pub fn get_items_in_room(&self, room_id: i32) -> (r: Vec<&Item>)
        requires
            self.wf(),
        ensures
            r@.len() == items_in(self.items.values(), room_id).len(),
            forall|k: int|
                0 <= k < r@.len() ==> *(#[trigger] r@[k]) == items_in(
                    self.items.values(),
                    room_id,
                )[k],
    {
        let mut out: Vec<&Item> = Vec::new();
        let n = self.items.len();
        let ghost all = self.items.values();
        let mut i: usize = 0;
        proof {
            reveal(Seq::filter);
            assert(items_in(all.subrange(0, 0), room_id) =~= Seq::empty());
        }
        while i < n
            invariant
                i <= n,
                self.wf(),
                all == self.items.values(),
                n == all.len(),
                n == self.items.keys().len(),
                out@.len() == items_in(all.subrange(0, i as int), room_id).len(),
                forall|k: int|
                    0 <= k < out@.len() ==> *(#[trigger] out@[k]) == items_in(
                        all.subrange(0, i as int),
                        room_id,
                    )[k],
            decreases n - i,
        {
            let item = self.items.value_at(i);
            proof {
                lemma_items_in_step(all, i as int, room_id);
            }
            if item.location == room_id {
                out.push(item);
            }
            i = i + 1;
        }
        assert(all.subrange(0, n as int) =~= all);
        out
    }

    /// The living monsters in the room `room_id`, in ascending order of
    /// their numbers.
    pub fn get_monsters_in_room(&self, room_id: i32) -> (r: Vec<&Monster>)
        requires
            self.wf(),
        ensures
            r@.len() == living_in(self.monsters.values(), room_id).len(),
            forall|k: int|
                0 <= k < r@.len() ==> *(#[trigger] r@[k]) == living_in(
                    self.monsters.values(),
                    room_id,
                )[k],
    {
        let mut out: Vec<&Monster> = Vec::new();
        let n = self.monsters.len();
        let ghost all = self.monsters.values();
        let mut i: usize = 0;
        proof {
            reveal(Seq::filter);
            assert(living_in(all.subrange(0, 0), room_id) =~= Seq::empty());
        }
        while i < n
            invariant
                i <= n,
                self.wf(),
                all == self.monsters.values(),
                n == all.len(),
                n == self.monsters.keys().len(),
                out@.len() == living_in(all.subrange(0, i as int), room_id).len(),
                forall|k: int|
                    0 <= k < out@.len() ==> *(#[trigger] out@[k]) == living_in(
                        all.subrange(0, i as int),
                        room_id,
                    )[k],
            decreases n - i,
        {
            let monster = self.monsters.value_at(i);
            proof {
                lemma_living_in_step(all, i as int, room_id);
            }
            if monster.room_id == room_id && !monster.is_dead {
                out.push(monster);
            }
            i = i + 1;
        }
        assert(all.subrange(0, n as int) =~= all);
        out
    }

    /// What a look around shows: the room, or the void where the player
    /// stands in no room; then the items that lie there and the living
    /// monsters that are there, if there are any.
    pub open spec fn look_text(&self) -> Seq<char> {
        let here = self.player.current_room;
        let items = items_in(self.items.values(), here);
        let monsters = living_in(self.monsters.values(), here);
        (if self.rooms@.contains_key(here) {
            room_text(self.rooms@[here])
        } else {
            "You are in a void.\n"@
        }) + (if items.len() > 0 {
            "\nYou see:\n"@ + item_lines(items)
        } else {
            Seq::empty()
        }) + (if monsters.len() > 0 {
            "\nPresent:\n"@ + monster_lines(monsters)
        } else {
            Seq::empty()
        })
    }

    /// What a look around shows, as the text to print.
    pub fn look(&self) -> (r: String)
        requires
            self.wf(),
        ensures
            r@ == self.look_text(),
    {
        let mut out = String::new();
        match self.get_current_room() {
            Some(room) => {
                proof {
                    reveal_strlit("-");
                }
                out.append("\n");
                out.append(room.name.as_str());
                out.append("\n");
                out.append(repeat("-", room.name.as_str().len()).as_str());
                out.append("\n");
                out.append(room.description.as_str());
                out.append("\n");
                if !room.exits.is_empty() {
                    let exits = room.exits.key_list();
                    out.append("\nObvious exits: ");
                    out.append(join(&exits, ", ").as_str());
                    out.append("\n");
                } else {
                    out.append("\nNo obvious exits.\n");
                }
                assert(out@ =~= room_text(*room));
            },
            None => {
                out.append("You are in a void.\n");
                assert(out@ =~= "You are in a void.\n"@);
            },
        }
        let ghost head = out@;
        let items = self.get_items_in_room(self.player.current_room);
        let ghost here = items_in(self.items.values(), self.player.current_room);
        if items.len() > 0 {
            out.append("\nYou see:\n");
            let mut i: usize = 0;
            assert(here.subrange(0, 0) =~= Seq::empty());
            while i < items.len()
                invariant
                    i <= items@.len(),
                    items@.len() == here.len(),
                    forall|k: int| 0 <= k < items@.len() ==> *(#[trigger] items@[k]) == here[k],
                    out@ == head + "\nYou see:\n"@ + item_lines(here.subrange(0, i as int)),
                decreases items@.len() - i,
            {
                out.append("  - ");
                out.append(items[i].name.as_str());
                out.append("\n");
                proof {
                    let now = here.subrange(0, i + 1);
                    assert(now.drop_last() =~= here.subrange(0, i as int));
                    assert(out@ =~= head + "\nYou see:\n"@ + item_lines(now));
                }
                i = i + 1;
            }
            assert(here.subrange(0, here.len() as int) =~= here);
            assert(out@ =~= head + ("\nYou see:\n"@ + item_lines(here)));
        } else {
            assert(out@ =~= head + Seq::<char>::empty());
        }
        let ghost mid = out@;
        let monsters = self.get_monsters_in_room(self.player.current_room);
        let ghost there = living_in(self.monsters.values(), self.player.current_room);
        if monsters.len() > 0 {
            out.append("\nPresent:\n");
            let mut i: usize = 0;
            assert(there.subrange(0, 0) =~= Seq::empty());
            while i < monsters.len()
                invariant
                    i <= monsters@.len(),
                    monsters@.len() == there.len(),
                    forall|k: int|
                        0 <= k < monsters@.len() ==> *(#[trigger] monsters@[k]) == there[k],
                    out@ == mid + "\nPresent:\n"@ + monster_lines(there.subrange(0, i as int)),
                decreases monsters@.len() - i,
            {
                out.append("  - ");
                out.append(monsters[i].name.as_str());
                match monsters[i].friendliness {
                    MonsterStatus::Friendly => out.append(" (friendly)"),
                    MonsterStatus::Hostile => out.append(" (hostile)"),
                    MonsterStatus::Neutral => out.append(""),
                }
                out.append("\n");
                proof {
                    let now = there.subrange(0, i + 1);
                    assert(now.drop_last() =~= there.subrange(0, i as int));
                    assert(out@ =~= mid + "\nPresent:\n"@ + monster_lines(now));
                }
                i = i + 1;
            }
            assert(there.subrange(0, there.len() as int) =~= there);
            assert(out@ =~= mid + ("\nPresent:\n"@ + monster_lines(there)));
        } else {
            assert(out@ =~= mid + Seq::<char>::empty());
        }
        out
    }

    /// Where a move in `direction` leads: to the room behind the exit of
    /// that name, as given or else in lower case, if the room the player
    /// stands in has such an exit and the world has the room behind it.
    pub open spec fn move_target(&self, direction: Seq<char>) -> Option<i32> {
        let here = self.player.current_room;
        if self.rooms@.contains_key(here) {
            match self.rooms@[here].exit_to(direction) {
                Some(dest) => if self.rooms@.contains_key(dest) {
                    Some(dest)
                } else {
                    None
                },
                None => None,
            }
        } else {
            None
        }
    }

    /// Moves the player through the exit `direction` and counts a turn, if
    /// the move leads somewhere; says whether it did. A direction that is a
    /// key of the exits of the room leads to the room filed under it, if
    /// the world has that room; a direction that is no key of the exits,
    /// in lower case neither, leads nowhere. The turn must be countable
    /// where the move leads somewhere.
    pub fn move_player(&mut self, direction: &str) -> (r: bool)
        requires
            old(self).wf(),
            old(self).move_target(direction@) is Some ==> old(self).turn_count < i32::MAX,
        ensures
            r == old(self).move_target(direction@) is Some,
            r ==> *final(self) == (AdventureGame {
                player: Player {
                    current_room: old(self).move_target(direction@)->0,
                    ..old(self).player
                },
                turn_count: (old(self).turn_count + 1) as i32,
                ..*old(self)
            }),
            !r ==> *final(self) == *old(self),
            ({
                let here = old(self).player.current_room;
                let exits = old(self).rooms@[here].exits@;
                old(self).rooms@.contains_key(here) ==> {
                    &&& exits.contains_key(direction@) && old(self).rooms@.contains_key(
                        exits[direction@],
                    ) ==> r && final(self).player.current_room == exits[direction@]
                    &&& !exits.contains_key(direction@) && !exits.contains_key(
                        unicode_lower(direction@),
                    ) ==> !r
                }
            }),
    {
        let dest = match self.get_current_room() {
            Some(room) => room.get_exit(direction),
            None => None,
        };
        match dest {
            Some(new_room_id) => {
                if self.rooms.contains_key(new_room_id) {
                    self.player.current_room = new_room_id;
                    self.turn_count = self.turn_count + 1;
                    true
                } else {
                    false
                }
            },
            None => false,
        }
    }
}

/// A move in a direction that is a key of the exits of the room the player
/// stands in leads to the room filed under that key, where the world has
/// that room. A move in a direction that is no key of the exits, in lower
/// case neither, leads nowhere.
pub proof fn law_moves_follow_exits(game: AdventureGame, direction: Seq<char>)
    requires
        game.wf(),
        game.rooms@.contains_key(game.player.current_room),
    ensures
        ({
            let exits = game.rooms@[game.player.current_room].exits@;
            &&& exits.contains_key(direction) && game.rooms@.contains_key(exits[direction])
                ==> game.move_target(direction) == Some(exits[direction])
            &&& !exits.contains_key(direction) && !exits.contains_key(unicode_lower(direction))
                ==> game.move_target(direction) is None
        }),
{
}

/// Whether `name` holds `needle`, letter case aside.
pub open spec fn name_matches(name: Seq<char>, needle: Seq<char>) -> bool {
    occurs(unicode_lower(name), unicode_lower(needle))
}

/// The position of the first item at or after `i` that lies in `room`, can
/// be taken and has `needle` in its name, or the length of `items`.
pub open spec fn first_takeable(items: Seq<Item>, room: i32, needle: Seq<char>, i: int) -> int
    decreases items.len() - i,
{
    if i < 0 || i >= items.len() {
        items.len() as int
    } else if items[i].location == room && name_matches(items[i].name@, needle)
        && items[i].is_takeable {
        i
    } else {
        first_takeable(items, room, needle, i + 1)
    }
}

/// The position of the first number at or after `i` in `inventory` that is
/// the number of an item with `needle` in its name, or the length of
/// `inventory`.
pub open spec fn first_droppable(
    inventory: Seq<i32>,
    items: Map<i32, Item>,
    needle: Seq<char>,
    i: int,
) -> int
    decreases inventory.len() - i,
{
    if i < 0 || i >= inventory.len() {
        inventory.len() as int
    } else if items.contains_key(inventory[i]) && name_matches(items[inventory[i]].name@, needle) {
        i
    } else {
        first_droppable(inventory, items, needle, i + 1)
    }
}

/// `inventory` without the number `id`.
pub open spec fn without(inventory: Seq<i32>, id: i32) -> Seq<i32> {
    inventory.filter(|x: i32| x != id)
}

pub proof fn lemma_first_takeable(items: Seq<Item>, room: i32, needle: Seq<char>, i: int)
    requires
        0 <= i <= items.len(),
    ensures
        i <= first_takeable(items, room, needle, i) <= items.len(),
    decreases items.len() - i,
{
    if i < items.len() && !(items[i].location == room && name_matches(items[i].name@, needle)
        && items[i].is_takeable) {
        lemma_first_takeable(items, room, needle, i + 1);
    }
}

pub proof fn lemma_first_droppable(inventory: Seq<i32>, items: Map<i32, Item>, needle: Seq<char>, i: int)
    requires
        0 <= i <= inventory.len(),
    ensures
        i <= first_droppable(inventory, items, needle, i) <= inventory.len(),
        first_droppable(inventory, items, needle, i) < inventory.len() ==> items.contains_key(
            inventory[first_droppable(inventory, items, needle, i)],
        ),
    decreases inventory.len() - i,
{
    if i < inventory.len() && !(items.contains_key(inventory[i]) && name_matches(
        items[inventory[i]].name@,
        needle,
    )) {
        lemma_first_droppable(inventory, items, needle, i + 1);
    }
}

fn remove_all(inventory: &Vec<i32>, id: i32) -> (r: Vec<i32>)
    ensures
        r@ == without(inventory@, id),
{
    let mut out: Vec<i32> = Vec::new();
    let mut i: usize = 0;
    proof {
        reveal(Seq::filter);
        assert(without(inventory@.subrange(0, 0), id) =~= Seq::empty());
    }
    while i < inventory.len()
        invariant
            i <= inventory@.len(),
            out@ == without(inventory@.subrange(0, i as int), id),
        decreases inventory@.len() - i,
    {
        proof {
            reveal(Seq::filter);
            assert(inventory@.subrange(0, i + 1).drop_last() =~= inventory@.subrange(0, i as int));
        }
        if inventory[i] != id {
            out.push(inventory[i]);
        }
        i = i + 1;
    }
    assert(inventory@.subrange(0, inventory@.len() as int) =~= inventory@);
    out
}

impl AdventureGame {
    /// Whether `after` is the game `self` but for the inventory of the
    /// player and for the items.
    pub open spec fn same_but_items(&self, after: AdventureGame) -> bool {
        &&& after == (AdventureGame { player: after.player, items: after.items, ..*self })
        &&& after.player == (Player { inventory: after.player.inventory, ..self.player })
    }

    /// Whether taking `item_name` may turn the game `self` into `after`
    /// with the result `r`. The first item in the room that can be taken and
    /// has `item_name` in its name is taken: its number joins the inventory,
    /// and the item filed under that number lies in the inventory. Without
    /// such an item nothing changes.
    pub open spec fn took(&self, item_name: Seq<char>, after: AdventureGame, r: bool) -> bool {
        let items = self.items.values();
        let k = first_takeable(items, self.player.current_room, item_name, 0);
        &&& r == (k < items.len())
        &&& r ==> self.same_but_items(after)
        &&& r ==> after.player.inventory@ == self.player.inventory@.push(items[k].id)
        &&& r ==> after.items@ == if self.items@.contains_key(items[k].id) {
            self.items@.insert(items[k].id, Item { location: 0, ..self.items@[items[k].id] })
        } else {
            self.items@
        }
        &&& !r ==> after == *self
    }

    /// Whether dropping `item_name` may turn the game `self` into `after`
    /// with the result `r`. The first item of the inventory that has
    /// `item_name` in its name is dropped: its number leaves the inventory
    /// wherever it occurs, and the item lies in the room the player stands
    /// in. Without such an item nothing changes.
    pub open spec fn dropped(&self, item_name: Seq<char>, after: AdventureGame, r: bool) -> bool {
        let carried = self.player.inventory@;
        let k = first_droppable(carried, self.items@, item_name, 0);
        &&& r == (k < carried.len())
        &&& r ==> self.same_but_items(after)
        &&& r ==> after.player.inventory@ == without(carried, carried[k])
        &&& r ==> after.items@ == self.items@.insert(
            carried[k],
            Item { location: self.player.current_room, ..self.items@[carried[k]] },
        )
        &&& !r ==> after == *self
    }

    /// Takes the first item in the room that can be taken and has
    /// `item_name` in its name, letter case aside: its number joins the
    /// inventory, and the item filed under that number lies in the
    /// inventory. Says whether there was such an item.
    pub fn take_item(&mut self, item_name: &str) -> (r: bool)
        requires
            old(self).wf(),
        ensures
            final(self).wf(),
            old(self).took(item_name@, *final(self), r),
    {
        let needle = to_lowercase(item_name);
        let room = self.player.current_room;
        let n = self.items.len();
        let ghost all = self.items.values();
        let mut i: usize = 0;
        let mut found: Option<i32> = None;
        proof {
            lemma_first_takeable(all, room, item_name@, 0);
        }
        while i < n && found.is_none()
            invariant
                i <= n,
                self.wf(),
                *self == *old(self),
                all == self.items.values(),
                n == all.len(),
                n == self.items.keys().len(),
                needle@ == unicode_lower(item_name@),
                room == self.player.current_room,
                found is None ==> first_takeable(all, room, item_name@, i as int) == first_takeable(
                    all,
                    room,
                    item_name@,
                    0,
                ),
                found is Some ==> first_takeable(all, room, item_name@, 0) < n && found->0
                    == all[first_takeable(all, room, item_name@, 0)].id,
            decreases n - i + if found is None { 1int } else { 0int },
        {
            let item = self.items.value_at(i);
            if item.location == room && item.is_takeable && contains(
                to_lowercase(item.name.as_str()).as_str(),
                needle.as_str(),
            ) {
                found = Some(item.id);
            } else {
                i = i + 1;
            }
        }
        match found {
            Some(id) => {
                self.player.inventory.push(id);
                match self.items.get_mut(id) {
                    Some(item) => {
                        item.location = 0;
                    },
                    None => {},
                }
                true
            },
            None => false,
        }
    }

    /// Drops the first item of the inventory that has `item_name` in its
    /// name, letter case aside: its number leaves the inventory wherever it
    /// occurs, and the item lies in the room the player stands in. Says
    /// whether there was such an item.
    pub fn drop_item(&mut self, item_name: &str) -> (r: bool)
        requires
            old(self).wf(),
        ensures
            final(self).wf(),
            old(self).dropped(item_name@, *final(self), r),
    {
        let needle = to_lowercase(item_name);
        let n = self.player.inventory.len();
        let ghost carried = self.player.inventory@;
        let mut i: usize = 0;
        let mut found: Option<i32> = None;
        proof {
            lemma_first_droppable(carried, self.items@, item_name@, 0);
        }
        while i < n && found.is_none()
            invariant
                i <= n,
                self.wf(),
                *self == *old(self),
                carried == self.player.inventory@,
                n == carried.len(),
                needle@ == unicode_lower(item_name@),
                found is None ==> first_droppable(carried, self.items@, item_name@, i as int)
                    == first_droppable(carried, self.items@, item_name@, 0),
                found is Some ==> first_droppable(carried, self.items@, item_name@, 0) < n
                    && found->0 == carried[first_droppable(carried, self.items@, item_name@, 0)]
                    && self.items@.contains_key(found->0),
            decreases n - i + if found is None { 1int } else { 0int },
        {
            let item_id = self.player.inventory[i];
            let matches = match self.items.get(item_id) {
                Some(item) => contains(to_lowercase(item.name.as_str()).as_str(), needle.as_str()),
                None => false,
            };
            if matches {
                found = Some(item_id);
            } else {
                i = i + 1;
            }
        }
        match found {
            Some(id) => {
                self.player.inventory = remove_all(&self.player.inventory, id);
                let room = self.player.current_room;
                match self.items.get_mut(id) {
                    Some(item) => {
                        item.location = room;
                    },
                    None => {},
                }
                true
            },
            None => false,
        }
    }
}

/// The state of the small game that knows its rooms by the text of their
/// numbers.
#[derive(Debug, Clone, PartialEq, Eq)]
pub struct GameState {
    pub world: StrMap<Room>,
    pub player: Player,
    pub variables: StrMap<String>,
    pub is_over: bool,
}

impl GameState {
    /// The invariant of the containers the state is made of.
    pub open spec fn wf(&self) -> bool {
        &&& self.world.wf()
        &&& self.variables.wf()
        &&& self.player.wf()
        &&& forall|id: Seq<char>| self.world@.contains_key(id) ==> (#[trigger] self.world@[id]).wf()
    }

    /// The key of the room the player stands in: its number in decimal.
    pub open spec fn here_key(&self) -> Seq<char> {
        crate::text::decimal(self.player.current_room as int)
    }

    /// A new game for `player_name` in room 1 of two rooms without exits:
    /// the village is room 1 and the forest is room 2.
    pub fn new(player_name: &str) -> (r: Self)
        ensures
            r.wf(),
            !r.is_over,
            r.variables@ == Map::<Seq<char>, String>::empty(),
            r.player.name@ == player_name@,
            r.player.fresh(),
            r.world@.dom() == set![crate::text::decimal(1), crate::text::decimal(2)],
            r.world@[crate::text::decimal(1)].id == 1,
            r.world@[crate::text::decimal(1)].name@ == "Quiet Village"@,
            r.world@[crate::text::decimal(1)].description@
                == "A small village with a single cobblestone path and a warm lantern glow."@,
            !r.world@[crate::text::decimal(1)].is_dark,
            r.world@[crate::text::decimal(1)].exits@ == Map::<Seq<char>, i32>::empty(),
            r.world@[crate::text::decimal(2)].id == 2,
            r.world@[crate::text::decimal(2)].name@ == "Whispering Forest"@,
            r.world@[crate::text::decimal(2)].description@
                == "Tall pines sway as if sharing secrets. The village lies south."@,
            !r.world@[crate::text::decimal(2)].is_dark,
            r.world@[crate::text::decimal(2)].exits@ == Map::<Seq<char>, i32>::empty(),
            r.world@.contains_key(r.here_key()),
    {
        let mut player = Player::new();
        player.name = String::from_str(player_name);
        player.current_room = 1;
        let village = Room::new(
            1,
            String::from_str("Quiet Village"),
            String::from_str(
                "A small village with a single cobblestone path and a warm lantern glow.",
            ),
        );
        let forest = Room::new(
            2,
            String::from_str("Whispering Forest"),
            String::from_str("Tall pines sway as if sharing secrets. The village lies south."),
        );
        let mut world: StrMap<Room> = StrMap::new();
        let _ = world.insert(crate::text::render_int(1), village);
        let _ = world.insert(crate::text::render_int(2), forest);
        proof {
            assert(crate::text::decimal(1) =~= seq![crate::text::digit_char(1)]) by {
                reveal_with_fuel(crate::text::decimal_nat, 2);
            }
            assert(crate::text::decimal(2) =~= seq![crate::text::digit_char(2)]) by {
                reveal_with_fuel(crate::text::decimal_nat, 2);
            }
            assert(crate::text::decimal(1)[0] != crate::text::decimal(2)[0]);
            assert(world@.dom() =~= set![crate::text::decimal(1), crate::text::decimal(2)]);
        }
        GameState { world, player, variables: StrMap::new(), is_over: false }
    }

    /// The room the player stands in.
    pub fn current_room(&self) -> (r: &Room)
        requires
            self.wf(),
            self.world@.contains_key(self.here_key()),
        ensures
            *r == self.world@[self.here_key()],
            r.wf(),
    {
        let key = crate::text::render_int(self.player.current_room as i64);
        match self.world.get(key.as_str()) {
            Some(room) => room,
            None => vstd::pervasive::unreached(),
        }
    }

    /// A mutable borrow of the room the player stands in. What the caller
    /// leaves in it becomes that room; nothing else changes.
    pub fn current_room_mut(&mut self) -> (r: &mut Room)
        requires
            old(self).wf(),
            old(self).world@.contains_key(old(self).here_key()),
        ensures
            *r == old(self).world@[old(self).here_key()],
            final(self).world@ == old(self).world@.insert(old(self).here_key(), *final(r)),
            final(self).world.wf(),
            final(self).player == old(self).player,
            final(self).variables == old(self).variables,
            final(self).is_over == old(self).is_over,
    {
        let key = crate::text::render_int(self.player.current_room as i64);
        match self.world.get_mut(key.as_str()) {
            Some(room) => room,
            None => vstd::pervasive::unreached(),
        }
    }
}

/// The mathematical values of the elements of a list, in order.
pub open spec fn view_list<T: View>(s: Seq<T>) -> Seq<T::V> {
    Seq::new(s.len(), |i: int| s[i]@)
}

pub proof fn lemma_view_list_parts<T: View>(s1: Seq<T>, s2: Seq<T>)
    requires
        view_list(s1) == view_list(s2),
    ensures
        s1.len() == s2.len(),
        forall|i: int| 0 <= i < s1.len() ==> (#[trigger] s1[i])@ == s2[i]@,
        s1.len() > 0 ==> view_list(s1.drop_last()) == view_list(s2.drop_last()) && s1.last()@
            == s2.last()@,
{
    assert(s1.len() == view_list(s1).len());
    assert(s2.len() == view_list(s2).len());
    assert forall|i: int| 0 <= i < s1.len() implies (#[trigger] s1[i])@ == s2[i]@ by {
        assert(view_list(s1)[i] == s1[i]@);
        assert(view_list(s2)[i] == s2[i]@);
    }
    if s1.len() > 0 {
        assert(view_list(s1.drop_last()) =~= view_list(s2.drop_last()));
    }
}

pub proof fn lemma_view_list_push<T: View>(s1: Seq<T>, s2: Seq<T>, x1: T, x2: T)
    requires
        view_list(s1) == view_list(s2),
        x1@ == x2@,
    ensures
        view_list(s1.push(x1)) == view_list(s2.push(x2)),
{
    lemma_view_list_parts(s1, s2);
    assert(view_list(s1.push(x1)) =~= view_list(s2.push(x2)));
}

proof fn lemma_items_in_views(s1: Seq<Item>, s2: Seq<Item>, room: i32)
    requires
        view_list(s1) == view_list(s2),
    ensures
        view_list(items_in(s1, room)) == view_list(items_in(s2, room)),
    decreases s1.len(),
{
    reveal(Seq::filter);
    lemma_view_list_parts(s1, s2);
    if s1.len() > 0 {
        lemma_items_in_views(s1.drop_last(), s2.drop_last(), room);
        if s1.last().location == room {
            lemma_view_list_push(
                items_in(s1.drop_last(), room),
                items_in(s2.drop_last(), room),
                s1.last(),
                s2.last(),
            );
        }
    } else {
        assert(view_list(items_in(s1, room)) =~= view_list(items_in(s2, room)));
    }
}

pub proof fn lemma_living_in_views(s1: Seq<Monster>, s2: Seq<Monster>, room: i32)
    requires
        view_list(s1) == view_list(s2),
    ensures
        view_list(living_in(s1, room)) == view_list(living_in(s2, room)),
    decreases s1.len(),
{
    reveal(Seq::filter);
    lemma_view_list_parts(s1, s2);
    if s1.len() > 0 {
        lemma_living_in_views(s1.drop_last(), s2.drop_last(), room);
        if s1.last().room_id == room && !s1.last().is_dead {
            lemma_view_list_push(
                living_in(s1.drop_last(), room),
                living_in(s2.drop_last(), room),
                s1.last(),
                s2.last(),
            );
        }
    } else {
        assert(view_list(living_in(s1, room)) =~= view_list(living_in(s2, room)));
    }
}

proof fn lemma_item_lines_views(s1: Seq<Item>, s2: Seq<Item>)
    requires
        view_list(s1) == view_list(s2),
    ensures
        item_lines(s1) == item_lines(s2),
    decreases s1.len(),
{
    lemma_view_list_parts(s1, s2);
    if s1.len() > 0 {
        lemma_item_lines_views(s1.drop_last(), s2.drop_last());
    }
}

proof fn lemma_monster_lines_views(s1: Seq<Monster>, s2: Seq<Monster>)
    requires
        view_list(s1) == view_list(s2),
    ensures
        monster_lines(s1) == monster_lines(s2),
    decreases s1.len(),
{
    lemma_view_list_parts(s1, s2);
    if s1.len() > 0 {
        lemma_monster_lines_views(s1.drop_last(), s2.drop_last());
    }
}

pub proof fn lemma_first_takeable_views(
    s1: Seq<Item>,
    s2: Seq<Item>,
    room: i32,
    needle: Seq<char>,
    i: int,
)
    requires
        view_list(s1) == view_list(s2),
        0 <= i,
    ensures
        first_takeable(s1, room, needle, i) == first_takeable(s2, room, needle, i),
    decreases s1.len() - i,
{
    lemma_view_list_parts(s1, s2);
    if i < s1.len() {
        if !(s1[i].location == room && name_matches(s1[i].name@, needle) && s1[i].is_takeable) {
            lemma_first_takeable_views(s1, s2, room, needle, i + 1);
        }
    }
}

pub proof fn lemma_first_droppable_views(
    inventory: Seq<i32>,
    m1: Map<i32, Item>,
    m2: Map<i32, Item>,
    needle: Seq<char>,
    i: int,
)
    requires
        views_of(m1) == views_of(m2),
        0 <= i,
    ensures
        first_droppable(inventory, m1, needle, i) == first_droppable(inventory, m2, needle, i),
    decreases inventory.len() - i,
{
    if i < inventory.len() {
        let id = inventory[i];
        assert(views_of(m1).contains_key(id) == m1.contains_key(id));
        assert(views_of(m2).contains_key(id) == m2.contains_key(id));
        if m1.contains_key(id) {
            assert(views_of(m1)[id] == m1[id]@);
            assert(views_of(m2)[id] == m2[id]@);
        }
        if !(m1.contains_key(id) && name_matches(m1[id].name@, needle)) {
            lemma_first_droppable_views(inventory, m1, m2, needle, i + 1);
        }
    }
}

pub proof fn lemma_views_of_parts<T: View>(m1: Map<i32, T>, m2: Map<i32, T>)
    requires
        views_of(m1) == views_of(m2),
    ensures
        m1.dom() == m2.dom(),
        forall|k: i32| m1.contains_key(k) ==> (#[trigger] m1[k])@ == m2[k]@,
{
    assert forall|k: i32| m1.contains_key(k) == m2.contains_key(k) by {
        assert(views_of(m1).contains_key(k) == m1.contains_key(k));
        assert(views_of(m2).contains_key(k) == m2.contains_key(k));
    }
    assert(m1.dom() =~= m2.dom());
    assert forall|k: i32| m1.contains_key(k) implies (#[trigger] m1[k])@ == m2[k]@ by {
        assert(views_of(m1)[k] == m1[k]@);
        assert(views_of(m2)[k] == m2[k]@);
    }
}

pub proof fn lemma_views_of_insert<T: View>(m1: Map<i32, T>, m2: Map<i32, T>, k: i32, x1: T, x2: T)
    requires
        views_of(m1) == views_of(m2),
        x1@ == x2@,
    ensures
        views_of(m1.insert(k, x1)) == views_of(m2.insert(k, x2)),
{
    lemma_views_of_parts(m1, m2);
    assert(views_of(m1.insert(k, x1)) =~= views_of(m2.insert(k, x2)));
}

impl AdventureGame {
    /// Two games that are the same world model hold the same rooms, items
    /// and monsters, and walk them in the same order.
    pub proof fn lemma_same_world(&self, other: &AdventureGame)
        requires
            self.wf(),
            other.wf(),
            self@ == other@,
        ensures
            view_list(self.items.values()) == view_list(other.items.values()),
            view_list(self.monsters.values()) == view_list(other.monsters.values()),
            self.rooms@.dom() == other.rooms@.dom(),
            forall|id: i32|
                self.rooms@.contains_key(id) ==> (#[trigger] self.rooms@[id])@ == other.rooms@[id]@
                    && self.rooms@[id].exits.keys() == other.rooms@[id].exits.keys(),
            self.player@ == other.player@,
    {
        lemma_views_of_parts(self.items@, other.items@);
        lemma_views_of_parts(self.monsters@, other.monsters@);
        lemma_views_of_parts(self.rooms@, other.rooms@);
        self.items.lemma_keys_of_domain(&other.items);
        self.monsters.lemma_keys_of_domain(&other.monsters);
        self.items.lemma_entries();
        other.items.lemma_entries();
        self.monsters.lemma_entries();
        other.monsters.lemma_entries();
        assert(view_list(self.items.values()) =~= view_list(other.items.values())) by {
            assert forall|i: int| 0 <= i < self.items.values().len() implies self.items.values()[i]@
                == other.items.values()[i]@ by {
                let k = self.items.keys()[i];
                assert(self.items@[k] == self.items.values()[i]);
                assert(other.items@[k] == other.items.values()[i]);
            }
        }
        assert(view_list(self.monsters.values()) =~= view_list(other.monsters.values())) by {
            assert forall|i: int|
                0 <= i < self.monsters.values().len() implies self.monsters.values()[i]@
                == other.monsters.values()[i]@ by {
                let k = self.monsters.keys()[i];
                assert(self.monsters@[k] == self.monsters.values()[i]);
                assert(other.monsters@[k] == other.monsters.values()[i]);
            }
        }
        assert forall|id: i32| self.rooms@.contains_key(id) implies (#[trigger] self.rooms@[id])@
            == other.rooms@[id]@ && self.rooms@[id].exits.keys() == other.rooms@[id].exits.keys() by {
            let r1 = self.rooms@[id];
            let r2 = other.rooms@[id];
            assert(r1@.exits == r2@.exits);
            r1.exits.lemma_keys_of_domain(&r2.exits);
        }
    }

    /// What a look around shows is a matter of the world model alone.
    pub proof fn lemma_look_of_world(&self, other: &AdventureGame)
        requires
            self.wf(),
            other.wf(),
            self@ == other@,
        ensures
            self.look_text() == other.look_text(),
    {
        self.lemma_same_world(other);
        let here = self.player.current_room;
        lemma_items_in_views(self.items.values(), other.items.values(), here);
        lemma_living_in_views(self.monsters.values(), other.monsters.values(), here);
        lemma_item_lines_views(
            items_in(self.items.values(), here),
            items_in(other.items.values(), here),
        );
        lemma_monster_lines_views(
            living_in(self.monsters.values(), here),
            living_in(other.monsters.values(), here),
        );
        lemma_view_list_parts(
            items_in(self.items.values(), here),
            items_in(other.items.values(), here),
        );
        lemma_view_list_parts(
            living_in(self.monsters.values(), here),
            living_in(other.monsters.values(), here),
        );
        assert(self.rooms@.contains_key(here) == other.rooms@.contains_key(here));
    }

    /// Where a move leads is a matter of the world model alone.
    pub proof fn lemma_move_of_world(&self, other: &AdventureGame, direction: Seq<char>)
        requires
            self.wf(),
            other.wf(),
            self@ == other@,
        ensures
            self.move_target(direction) == other.move_target(direction),
    {
        self.lemma_same_world(other);
        let here = self.player.current_room;
        assert(self.rooms@.contains_key(here) == other.rooms@.contains_key(here));
        if self.rooms@.contains_key(here) {
            assert(self.rooms@[here]@.exits == other.rooms@[here]@.exits);
            let dest = self.rooms@[here].exit_to(direction);
            if dest is Some {
                assert(self.rooms@.contains_key(dest->0) == other.rooms@.contains_key(dest->0));
            }
        }
    }

    /// Taking an item is a matter of the world model alone: from two games
    /// that are the same world model it leaves the same world model, with
    /// the same result.
    pub proof fn lemma_took_of_world(
        &self,
        other: &AdventureGame,
        item_name: Seq<char>,
        after1: AdventureGame,
        after2: AdventureGame,
        r1: bool,
        r2: bool,
    )
        requires
            self.wf(),
            other.wf(),
            self@ == other@,
            self.took(item_name, after1, r1),
            other.took(item_name, after2, r2),
        ensures
            r1 == r2,
            after1@ == after2@,
    {
        self.lemma_same_world(other);
        let room = self.player.current_room;
        let s1 = self.items.values();
        let s2 = other.items.values();
        lemma_first_takeable_views(s1, s2, room, item_name, 0);
        lemma_first_takeable(s1, room, item_name, 0);
        lemma_view_list_parts(s1, s2);
        let k = first_takeable(s1, room, item_name, 0);
        if k < s1.len() {
            let id = s1[k].id;
            assert(s2[k].id == id);
            lemma_views_of_parts(self.items@, other.items@);
            if self.items@.contains_key(id) {
                lemma_views_of_insert(
                    self.items@,
                    other.items@,
                    id,
                    Item { location: 0, ..self.items@[id] },
                    Item { location: 0, ..other.items@[id] },
                );
            }
            assert(after1@.player == after2@.player);
        }
    }

    /// Dropping an item is a matter of the world model alone.
    pub proof fn lemma_dropped_of_world(
        &self,
        other: &AdventureGame,
        item_name: Seq<char>,
        after1: AdventureGame,
        after2: AdventureGame,
        r1: bool,
        r2: bool,
    )
        requires
            self.wf(),
            other.wf(),
            self@ == other@,
            self.dropped(item_name, after1, r1),
            other.dropped(item_name, after2, r2),
        ensures
            r1 == r2,
            after1@ == after2@,
    {
        self.lemma_same_world(other);
        let carried = self.player.inventory@;
        assert(carried == other.player.inventory@);
        lemma_first_droppable_views(carried, self.items@, other.items@, item_name, 0);
        lemma_first_droppable(carried, self.items@, item_name, 0);
        let k = first_droppable(carried, self.items@, item_name, 0);
        if k < carried.len() {
            let id = carried[k];
            lemma_views_of_parts(self.items@, other.items@);
            lemma_views_of_insert(
                self.items@,
                other.items@,
                id,
                Item { location: self.player.current_room, ..self.items@[id] },
                Item { location: other.player.current_room, ..other.items@[id] },
            );
            assert(after1@.player == after2@.player);
        }
    }
}

} // verus!
