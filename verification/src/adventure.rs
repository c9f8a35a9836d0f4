//! The adventure document: the declarative description of a world, the
//! rules that a document must meet, and the game state it unfolds into.

use vstd::prelude::*;
use crate::game_state::{
    text_map, GameState, GameStateView, Item, ItemView, Player, PlayerView, Room, RoomView,
};
use crate::strmap::{StrMap, StrSet};
use crate::json::json_error_text;
use crate::text::{blank, concat2, concat3, is_blank};

verus! {

/// An item as a document describes it.
#[derive(Debug, Clone, PartialEq, Eq)]
pub struct AdventureItem {
    pub id: String,
    pub name: String,
    pub description: String,
}

/// A room as a document describes it.
#[derive(Debug, Clone, PartialEq, Eq)]
pub struct AdventureRoom {
    pub id: String,
    pub title: String,
    pub description: String,
    /// Direction to the identifier of the room that lies there.
    pub exits: StrMap<String>,
    pub items: Vec<AdventureItem>,
}

/// A whole adventure document.
#[derive(Debug, Clone, PartialEq, Eq)]
pub struct Adventure {
    pub id: String,
    pub title: String,
    pub start_room: String,
    pub rooms: Vec<AdventureRoom>,
    pub player_start_inventory: Vec<AdventureItem>,
}

/// What can be wrong with a document. The rules are checked in the order of
/// the variants; rooms in document order, the exits of a room in ascending
/// order of direction.
pub enum Flaw {
    NoId,
    NoTitle,
    NoStartRoom,
    NoRooms,
    /// A room whose identifier is blank.
    RoomWithoutId,
    /// A room whose identifier an earlier room has.
    DuplicateRoom(Seq<char>),
    /// The start room is no room of the document.
    UnknownStartRoom(Seq<char>),
    /// A room with an exit whose direction is blank.
    ExitWithoutDirection(Seq<char>),
    /// A room and a direction whose destination is blank.
    ExitWithoutDestination(Seq<char>, Seq<char>),
    /// A room, a direction and a destination that is no room of the document.
    ExitToUnknownRoom(Seq<char>, Seq<char>, Seq<char>),
}

/// Whether one of `rooms` has the identifier `id`.
pub open spec fn has_room(rooms: Seq<AdventureRoom>, id: Seq<char>) -> bool {
    exists|i: int| 0 <= i < rooms.len() && #[trigger] rooms[i].id@ == id
}

/// Whether a room before room `i` has the identifier of room `i`.
pub open spec fn seen_before(rooms: Seq<AdventureRoom>, i: int) -> bool {
    exists|j: int| 0 <= j < i && #[trigger] rooms[j].id@ == rooms[i].id@
}

/// The first flaw in the identifiers of the rooms from `i` on.
pub open spec fn id_flaw(rooms: Seq<AdventureRoom>, i: int) -> Option<Flaw>
    decreases rooms.len() - i,
{
    if i < 0 || i >= rooms.len() {
        None
    } else if blank(rooms[i].id@) {
        Some(Flaw::RoomWithoutId)
    } else if seen_before(rooms, i) {
        Some(Flaw::DuplicateRoom(rooms[i].id@))
    } else {
        id_flaw(rooms, i + 1)
    }
}

/// The flaw of exit `e` of `room`, if it has one.
pub open spec fn exit_flaw_at(rooms: Seq<AdventureRoom>, room: AdventureRoom, e: int) -> Option<
    Flaw,
> {
    let dir = room.exits.keys()[e];
    let dest = room.exits.values()[e]@;
    if blank(dir) {
        Some(Flaw::ExitWithoutDirection(room.id@))
    } else if blank(dest) {
        Some(Flaw::ExitWithoutDestination(room.id@, dir))
    } else if !has_room(rooms, dest) {
        Some(Flaw::ExitToUnknownRoom(room.id@, dir, dest))
    } else {
        None
    }
}

/// The first flaw in the exits of `room` from exit `e` on.
pub open spec fn exit_flaw_in(rooms: Seq<AdventureRoom>, room: AdventureRoom, e: int) -> Option<
    Flaw,
>
    decreases room.exits.keys().len() - e,
{
    if e < 0 || e >= room.exits.keys().len() {
        None
    } else if exit_flaw_at(rooms, room, e) is Some {
        exit_flaw_at(rooms, room, e)
    } else {
        exit_flaw_in(rooms, room, e + 1)
    }
}

/// The first flaw in the exits of the rooms from `i` on.
pub open spec fn exit_flaw(rooms: Seq<AdventureRoom>, i: int) -> Option<Flaw>
    decreases rooms.len() - i,
{
    if i < 0 || i >= rooms.len() {
        None
    } else if exit_flaw_in(rooms, rooms[i], 0) is Some {
        exit_flaw_in(rooms, rooms[i], 0)
    } else {
        exit_flaw(rooms, i + 1)
    }
}

/// The first rule that the document breaks, if it breaks one.
pub open spec fn first_flaw(a: Adventure) -> Option<Flaw> {
    if blank(a.id@) {
        Some(Flaw::NoId)
    } else if blank(a.title@) {
        Some(Flaw::NoTitle)
    } else if blank(a.start_room@) {
        Some(Flaw::NoStartRoom)
    } else if a.rooms@.len() == 0 {
        Some(Flaw::NoRooms)
    } else if id_flaw(a.rooms@, 0) is Some {
        id_flaw(a.rooms@, 0)
    } else if !has_room(a.rooms@, a.start_room@) {
        Some(Flaw::UnknownStartRoom(a.start_room@))
    } else {
        exit_flaw(a.rooms@, 0)
    }
}

/// The words that report a flaw.
pub open spec fn flaw_message(f: Flaw) -> Seq<char> {
    match f {
        Flaw::NoId => "adventure.id is required"@,
        Flaw::NoTitle => "adventure.title is required"@,
        Flaw::NoStartRoom => "adventure.start_room is required"@,
        Flaw::NoRooms => "adventure.rooms must not be empty"@,
        Flaw::RoomWithoutId => "room.id is required"@,
        Flaw::DuplicateRoom(id) => "duplicate room id: "@ + id,
        Flaw::UnknownStartRoom(id) => "start_room does not exist: "@ + id,
        Flaw::ExitWithoutDirection(room) => "room '"@ + room + "' has an empty exit direction"@,
        Flaw::ExitWithoutDestination(room, dir) => "room '"@ + room + "' exit '"@ + dir
            + "' has empty destination"@,
        Flaw::ExitToUnknownRoom(room, dir, dest) => "room '"@ + room + "' exit '"@ + dir
            + "' points to unknown room '"@ + dest + "'"@,
    }
}

/// Whether every exit of `room` has a direction and leads to one of `rooms`.
pub open spec fn exits_sound(rooms: Seq<AdventureRoom>, room: AdventureRoom) -> bool {
    forall|dir: Seq<char>| #[trigger]
        room.exits@.contains_key(dir) ==> !blank(dir) && !blank(room.exits@[dir]@) && has_room(
            rooms,
            room.exits@[dir]@,
        )
}

/// What a sound document is: identifier, title and start room are given,
/// there is a room, every room has an identifier of its own, the start room
/// is one of the rooms, and every exit has a direction and leads to one of
/// the rooms.
pub open spec fn sound(a: Adventure) -> bool {
    let rooms = a.rooms@;
    &&& !blank(a.id@)
    &&& !blank(a.title@)
    &&& !blank(a.start_room@)
    &&& rooms.len() > 0
    &&& forall|i: int| 0 <= i < rooms.len() ==> !blank(#[trigger] rooms[i].id@)
    &&& forall|i: int, j: int|
        0 <= j < i < rooms.len() ==> #[trigger] rooms[j].id@ != #[trigger] rooms[i].id@
    &&& has_room(rooms, a.start_room@)
    &&& forall|i: int| 0 <= i < rooms.len() ==> exits_sound(rooms, #[trigger] rooms[i])
}

proof fn lemma_id_flaw(rooms: Seq<AdventureRoom>, i: int)
    requires
        0 <= i <= rooms.len(),
    ensures
        id_flaw(rooms, i) is None <==> forall|k: int|
            i <= k < rooms.len() ==> !blank(#[trigger] rooms[k].id@) && !seen_before(rooms, k),
    decreases rooms.len() - i,
{
    if i < rooms.len() {
        lemma_id_flaw(rooms, i + 1);
        if id_flaw(rooms, i) is None {
            assert forall|k: int| i <= k < rooms.len() implies !blank(#[trigger] rooms[k].id@)
                && !seen_before(rooms, k) by {
                if k > i {
                }
            }
        }
    }
}

proof fn lemma_exit_flaw_in(rooms: Seq<AdventureRoom>, room: AdventureRoom, e: int)
    requires
        0 <= e <= room.exits.keys().len(),
    ensures
        exit_flaw_in(rooms, room, e) is None <==> forall|k: int|
            e <= k < room.exits.keys().len() ==> (#[trigger] exit_flaw_at(rooms, room, k)) is None,
    decreases room.exits.keys().len() - e,
{
    if e < room.exits.keys().len() {
        lemma_exit_flaw_in(rooms, room, e + 1);
        if exit_flaw_in(rooms, room, e) is None {
            assert forall|k: int| e <= k < room.exits.keys().len() implies (#[trigger] exit_flaw_at(
                rooms,
                room,
                k,
            )) is None by {
                if k > e {
                }
            }
        }
    }
}

proof fn lemma_exits_sound(rooms: Seq<AdventureRoom>, room: AdventureRoom)
    requires
        room.exits.wf(),
    ensures
        exits_sound(rooms, room) <==> exit_flaw_in(rooms, room, 0) is None,
{
    room.exits.lemma_entries();
    lemma_exit_flaw_in(rooms, room, 0);
    if exit_flaw_in(rooms, room, 0) is None {
        assert forall|dir: Seq<char>| #[trigger] room.exits@.contains_key(dir) implies !blank(dir)
            && !blank(room.exits@[dir]@) && has_room(rooms, room.exits@[dir]@) by {
            let e = room.exits.keys().index_of(dir);
            assert(room.exits.keys()[e] == dir);
            assert(exit_flaw_at(rooms, room, e) is None);
        }
    }
    if exits_sound(rooms, room) {
        assert forall|e: int| 0 <= e < room.exits.keys().len() implies (#[trigger] exit_flaw_at(
            rooms,
            room,
            e,
        )) is None by {
            assert(room.exits@.contains_key(room.exits.keys()[e]));
        }
    }
}

proof fn lemma_exit_flaw(rooms: Seq<AdventureRoom>, i: int)
    requires
        0 <= i <= rooms.len(),
    ensures
        exit_flaw(rooms, i) is None <==> forall|k: int|
            i <= k < rooms.len() ==> exit_flaw_in(rooms, #[trigger] rooms[k], 0) is None,
    decreases rooms.len() - i,
{
    if i < rooms.len() {
        lemma_exit_flaw(rooms, i + 1);
        if exit_flaw(rooms, i) is None {
            assert forall|k: int| i <= k < rooms.len() implies exit_flaw_in(
                rooms,
                #[trigger] rooms[k],
                0,
            ) is None by {
                if k > i {
                }
            }
        }
    }
}

/// A document breaks no rule exactly when it is sound.
pub proof fn lemma_flawless_is_sound(a: Adventure)
    requires
        a.wf(),
    ensures
        first_flaw(a) is None <==> sound(a),
{
    let rooms = a.rooms@;
    lemma_id_flaw(rooms, 0);
    lemma_exit_flaw(rooms, 0);
    assert forall|i: int| 0 <= i < rooms.len() implies (exits_sound(rooms, #[trigger] rooms[i])
        <==> exit_flaw_in(rooms, rooms[i], 0) is None) by {
        lemma_exits_sound(rooms, rooms[i]);
    }
    if sound(a) {
        assert forall|k: int| 0 <= k < rooms.len() implies !blank(#[trigger] rooms[k].id@)
            && !seen_before(rooms, k) by {
            if seen_before(rooms, k) {
                let j = choose|j: int| 0 <= j < k && #[trigger] rooms[j].id@ == rooms[k].id@;
                assert(rooms[j].id@ != rooms[k].id@);
            }
        }
    }
    if first_flaw(a) is None {
        assert forall|i: int, j: int| 0 <= j < i < rooms.len() implies #[trigger] rooms[j].id@
            != #[trigger] rooms[i].id@ by {
            assert(!seen_before(rooms, i));
        }
    }
}

/// `std::io::Error`, carried as it is: why a file could not be read or
/// written.
#[verifier::external_type_specification]
#[verifier::external_body]
pub struct ExIoError(std::io::Error);

/// Why an adventure could not be loaded, saved or used.
#[derive(Debug)]
pub enum AdventureError {
    /// The file could not be read or written.
    Io(std::io::Error),
    /// The text is not the JSON of an adventure.
    Json(serde_json::Error),
    /// The document breaks a rule; the message names it.
    Validation(String),
}

/// What `std::io::Error` prints of itself. It depends on the platform, so
/// nothing is claimed of the text.
#[verifier::external_body]
fn io_error_text(e: &std::io::Error) -> (r: String) {
    format!("{e}")
}

impl AdventureError {
    /// The error in words: the kind, a colon and the cause.
    pub fn message(&self) -> (r: String)
        ensures
            match *self {
                AdventureError::Io(_) => "io error: "@.is_prefix_of(r@),
                AdventureError::Json(_) => "json error: "@.is_prefix_of(r@),
                AdventureError::Validation(m) => r@ == "validation error: "@ + m@,
            },
    {
        match self {
            AdventureError::Io(e) => {
                let cause = io_error_text(e);
                concat2("io error: ", cause.as_str())
            },
            AdventureError::Json(e) => {
                let cause = json_error_text(e);
                concat2("json error: ", cause.as_str())
            },
            AdventureError::Validation(m) => concat2("validation error: ", m.as_str()),
        }
    }
}

proof fn lemma_has_room_prefix(rooms: Seq<AdventureRoom>, i: int, id: Seq<char>)
    requires
        0 <= i < rooms.len(),
    ensures
        has_room(rooms.subrange(0, i + 1), id) <==> has_room(rooms.subrange(0, i), id)
            || rooms[i].id@ == id,
        seen_before(rooms, i) <==> has_room(rooms.subrange(0, i), rooms[i].id@),
        has_room(rooms.subrange(0, rooms.len() as int), id) <==> has_room(rooms, id),
{
    let short = rooms.subrange(0, i);
    let long = rooms.subrange(0, i + 1);
    if has_room(long, id) {
        let j = choose|j: int| 0 <= j < long.len() && #[trigger] long[j].id@ == id;
        if j < i {
            assert(short[j].id@ == id);
        }
    }
    if has_room(short, id) {
        let j = choose|j: int| 0 <= j < short.len() && #[trigger] short[j].id@ == id;
        assert(long[j].id@ == id);
    }
    if rooms[i].id@ == id {
        assert(long[i].id@ == id);
    }
    if seen_before(rooms, i) {
        let j = choose|j: int| 0 <= j < i && #[trigger] rooms[j].id@ == rooms[i].id@;
        assert(short[j].id@ == rooms[i].id@);
    }
    if has_room(short, rooms[i].id@) {
        let j = choose|j: int| 0 <= j < short.len() && #[trigger] short[j].id@ == rooms[i].id@;
        assert(rooms[j].id@ == rooms[i].id@);
    }
    assert(rooms.subrange(0, rooms.len() as int) =~= rooms);
}

fn flaw(message: String) -> (r: Result<(), AdventureError>)
    ensures
        r is Err,
        r->Err_0 matches AdventureError::Validation(m) && m == message,
{
    Err(AdventureError::Validation(message))
}

impl Adventure {
    /// The invariant of the containers the document is made of.
    pub open spec fn wf(&self) -> bool {
        forall|i: int| 0 <= i < self.rooms@.len() ==> (#[trigger] self.rooms@[i]).exits.wf()
    }

    /// Checks the document against the rules. The error names the first
    /// rule that is broken.
    pub fn validate(&self) -> (r: Result<(), AdventureError>)
        requires
            self.wf(),
        ensures
            r is Ok <==> sound(*self),
            r is Ok <==> first_flaw(*self) is None,
            r is Err ==> (r->Err_0 matches AdventureError::Validation(m) && m@ == flaw_message(
                first_flaw(*self)->0,
            )),
    {
        proof {
            lemma_flawless_is_sound(*self);
        }
        if is_blank(self.id.as_str()) {
            return flaw(String::from_str("adventure.id is required"));
        }
        if is_blank(self.title.as_str()) {
            return flaw(String::from_str("adventure.title is required"));
        }
        if is_blank(self.start_room.as_str()) {
            return flaw(String::from_str("adventure.start_room is required"));
        }
        if self.rooms.len() == 0 {
            return flaw(String::from_str("adventure.rooms must not be empty"));
        }
        let n = self.rooms.len();
        let mut ids = StrSet::new();
        let mut i: usize = 0;
        assert(!has_room(self.rooms@.subrange(0, 0), self.start_room@));
        while i < n
            invariant
                i <= n,
                n == self.rooms@.len(),
                ids.wf(),
                forall|k: Seq<char>| #[trigger]
                    ids@.contains(k) <==> has_room(self.rooms@.subrange(0, i as int), k),
                id_flaw(self.rooms@, i as int) == id_flaw(self.rooms@, 0),
                id_flaw(self.rooms@, 0) is Some ==> first_flaw(*self) == id_flaw(self.rooms@, 0),
                first_flaw(*self) is None <==> sound(*self),
            decreases n - i,
        {
            let room = &self.rooms[i];
            proof {
                lemma_has_room_prefix(self.rooms@, i as int, room.id@);
                assert forall|k: Seq<char>|
                    has_room(self.rooms@.subrange(0, i + 1), k) <==> has_room(
                        self.rooms@.subrange(0, i as int),
                        k,
                    ) || room.id@ == k by {
                    lemma_has_room_prefix(self.rooms@, i as int, k);
                }
            }
            if is_blank(room.id.as_str()) {
                return flaw(String::from_str("room.id is required"));
            }
            if !ids.insert(room.id.clone()) {
                return flaw(concat2("duplicate room id: ", room.id.as_str()));
            }
            i = i + 1;
        }
        proof {
            assert forall|k: Seq<char>| #[trigger] ids@.contains(k) <==> has_room(
                self.rooms@,
                k,
            ) by {
                lemma_has_room_prefix(self.rooms@, 0, k);
            }
        }
        if !ids.contains(self.start_room.as_str()) {
            return flaw(concat2("start_room does not exist: ", self.start_room.as_str()));
        }
        let mut i: usize = 0;
        while i < n
            invariant
                i <= n,
                n == self.rooms@.len(),
                self.wf(),
                ids.wf(),
                forall|k: Seq<char>| #[trigger] ids@.contains(k) <==> has_room(self.rooms@, k),
                first_flaw(*self) == exit_flaw(self.rooms@, i as int),
                first_flaw(*self) is None <==> sound(*self),
            decreases n - i,
        {
            let room = &self.rooms[i];
            let count = room.exits.len();
            let mut e: usize = 0;
            while e < count
                invariant
                    e <= count,
                    count == room.exits.keys().len(),
                    room.exits.wf(),
                    ids.wf(),
                    forall|k: Seq<char>| #[trigger] ids@.contains(k) <==> has_room(self.rooms@, k),
                    i < n,
                    n == self.rooms@.len(),
                    *room == self.rooms@[i as int],
                    first_flaw(*self) == exit_flaw(self.rooms@, i as int),
                    first_flaw(*self) is None <==> sound(*self),
                    exit_flaw_in(self.rooms@, *room, e as int) == exit_flaw_in(
                        self.rooms@,
                        *room,
                        0,
                    ),
                decreases count - e,
            {
                let dir = room.exits.key_at(e);
                let dest = room.exits.value_at(e);
                if is_blank(dir.as_str()) {
                    return flaw(
                        concat3("room '", room.id.as_str(), "' has an empty exit direction"),
                    );
                }
                if is_blank(dest.as_str()) {
                    return flaw(
                        String::from_str("room '").concat(room.id.as_str()).concat(
                            "' exit '",
                        ).concat(dir.as_str()).concat("' has empty destination"),
                    );
                }
                if !ids.contains(dest.as_str()) {
                    return flaw(
                        String::from_str("room '").concat(room.id.as_str()).concat(
                            "' exit '",
                        ).concat(dir.as_str()).concat("' points to unknown room '").concat(
                            dest.as_str(),
                        ).concat("'"),
                    );
                }
                e = e + 1;
            }
            i = i + 1;
        }
        Ok(())
    }
}

/// The item of the game that a described item becomes.
pub open spec fn item_of(a: AdventureItem) -> Item {
    Item { id: a.id, name: a.name, description: a.description }
}

/// The items of the game that described items become, in the same order.
pub open spec fn items_of(s: Seq<AdventureItem>) -> Seq<Item> {
    Seq::new(s.len(), |i: int| item_of(s[i]))
}

/// Whether `room` is the room of the game that the described room `from`
/// becomes: same texts, same exits, the same items in the same order.
pub open spec fn unfolds(from: AdventureRoom, room: Room) -> bool {
    &&& room.id == from.id
    &&& room.title == from.title
    &&& room.description == from.description
    &&& room.exits == from.exits
    &&& room.items@ == items_of(from.items@)
}

/// Whether `state` is the start of a game of the adventure `a` for a player
/// called `player_name`: one room per described room, under its identifier;
/// the player in the start room, carrying the start inventory.
pub open spec fn opens(a: Adventure, player_name: Seq<char>, state: GameState) -> bool {
    &&& !state.is_over
    &&& state.variables@ == Map::<Seq<char>, String>::empty()
    &&& state.player.name@ == player_name
    &&& state.player.location == a.start_room
    &&& state.player.inventory@ == items_of(a.player_start_inventory@)
    &&& state.player.flags@ == Set::<Seq<char>>::empty()
    &&& forall|id: Seq<char>| #[trigger] state.world@.contains_key(id) <==> has_room(a.rooms@, id)
    &&& forall|i: int|
        0 <= i < a.rooms@.len() ==> unfolds(
            #[trigger] a.rooms@[i],
            state.world@[a.rooms@[i].id@],
        )
}

fn items_from(items: &Vec<AdventureItem>) -> (r: Vec<Item>)
    ensures
        r@ == items_of(items@),
{
    let mut out: Vec<Item> = Vec::new();
    let mut i: usize = 0;
    while i < items.len()
        invariant
            i <= items.len(),
            out@ == items_of(items@.subrange(0, i as int)),
        decreases items.len() - i,
    {
        let item = &items[i];
        out.push(
            Item {
                id: item.id.clone(),
                name: item.name.clone(),
                description: item.description.clone(),
            },
        );
        assert(out@ =~= items_of(items@.subrange(0, i + 1)));
        i = i + 1;
    }
    assert(items@.subrange(0, items@.len() as int) =~= items@);
    out
}

proof fn lemma_sound_exits(a: Adventure, i: int, dir: Seq<char>)
    requires
        a.wf(),
        sound(a),
        0 <= i < a.rooms@.len(),
        a.rooms@[i].exits@.contains_key(dir),
    ensures
        has_room(a.rooms@, a.rooms@[i].exits@[dir]@),
{
}

impl Adventure {
    /// The state in which a game of this adventure starts, for a sound
    /// document; the validation error for any other.
    pub fn into_game_state(self, player_name: &str) -> (r: Result<GameState, AdventureError>)
        requires
            self.wf(),
        ensures
            r is Ok <==> sound(self),
            r is Ok ==> r->Ok_0.valid() && opens(self, player_name@, r->Ok_0),
            r is Err ==> (r->Err_0 matches AdventureError::Validation(m) && m@ == flaw_message(
                first_flaw(self)->0,
            )),
    {
        match self.validate() {
            Err(e) => {
                return Err(e);
            },
            Ok(_) => {},
        }
        let ghost all = self.rooms@;
        let mut player = Player::new(player_name, "");
        player.location = self.start_room;
        player.inventory = items_from(&self.player_start_inventory);
        let mut rooms = self.rooms;
        let mut world: StrMap<Room> = StrMap::new();
        while rooms.len() > 0
            invariant
                sound(self),
                self.wf(),
                all == self.rooms@,
                rooms@.len() <= all.len(),
                rooms@ == all.subrange(0, rooms@.len() as int),
                world.wf(),
                forall|id: Seq<char>| #[trigger]
                    world@.contains_key(id) <==> exists|j: int|
                        rooms@.len() <= j < all.len() && #[trigger] all[j].id@ == id,
                forall|j: int|
                    rooms@.len() <= j < all.len() ==> unfolds(#[trigger] all[j], world@[all[j].id@]),
            decreases rooms@.len(),
        {
            let ghost k = rooms@.len() - 1;
            let room = rooms.pop().unwrap();
            assert(room == all[k]);
            let items = items_from(&room.items);
            let made = Room {
                id: room.id.clone(),
                title: room.title,
                description: room.description,
                exits: room.exits,
                items,
            };
            let ghost before = world@;
            let _ = world.insert(room.id, made);
            proof {
                assert(rooms@ =~= all.subrange(0, k));
                assert forall|id: Seq<char>| #[trigger]
                    world@.contains_key(id) <==> exists|j: int|
                        k <= j < all.len() && #[trigger] all[j].id@ == id by {
                    if before.contains_key(id) {
                        let j = choose|j: int| k + 1 <= j < all.len() && #[trigger] all[j].id@ == id;
                        assert(k <= j < all.len() && all[j].id@ == id);
                    }
                    if exists|j: int| k <= j < all.len() && #[trigger] all[j].id@ == id {
                        let j = choose|j: int| k <= j < all.len() && #[trigger] all[j].id@ == id;
                        if j > k {
                            assert(k + 1 <= j < all.len() && all[j].id@ == id);
                        }
                    }
                }
                assert forall|j: int| k <= j < all.len() implies unfolds(
                    #[trigger] all[j],
                    world@[all[j].id@],
                ) by {
                    if j > k {
                        assert(all[k].id@ != all[j].id@);
                    }
                }
            }
        }
        let state = GameState { world, player, variables: StrMap::new(), is_over: false };
        proof {
            assert forall|id: Seq<char>| #[trigger] state.world@.contains_key(id) <==> has_room(
                all,
                id,
            ) by {
                if state.world@.contains_key(id) {
                    let j = choose|j: int| 0 <= j < all.len() && #[trigger] all[j].id@ == id;
                    assert(all[j].id@ == id);
                }
            }
            assert forall|id: Seq<char>| state.world@.contains_key(id) implies (
            #[trigger] state.world@[id]).wf() by {
                let j = choose|j: int| 0 <= j < all.len() && #[trigger] all[j].id@ == id;
                assert(unfolds(all[j], state.world@[all[j].id@]));
            }
            assert forall|id: Seq<char>, dir: Seq<char>|
                state.world@.contains_key(id) && (#[trigger] state.world@[id].exits@.contains_key(
                    dir,
                )) implies state.world@.contains_key(state.world@[id].exits@[dir]@) by {
                let j = choose|j: int| 0 <= j < all.len() && #[trigger] all[j].id@ == id;
                assert(unfolds(all[j], state.world@[all[j].id@]));
                lemma_sound_exits(self, j, dir);
            }
        }
        Ok(state)
    }
}

proof fn lemma_not_blank(s: Seq<char>)
    requires
        s.len() > 0,
        !crate::text::is_space(s[0]),
    ensures
        !blank(s),
{
}

impl Default for Adventure {
    /// The empty document. It is not sound: it has no identifier.
    fn default() -> (r: Self)
        ensures
            r.wf(),
            r.id@.len() == 0,
            r.title@.len() == 0,
            r.start_room@.len() == 0,
            r.rooms@.len() == 0,
            r.player_start_inventory@.len() == 0,
    {
        Adventure {
            id: String::new(),
            title: String::new(),
            start_room: String::new(),
            rooms: Vec::new(),
            player_start_inventory: Vec::new(),
        }
    }
}

impl Adventure {
    /// The demonstration adventure: a village with a key in it, and a forest
    /// to its north.
    pub fn demo() -> (r: Self)
        ensures
            r.wf(),
            sound(r),
            r.id@ == "demo"@,
            r.title@ == "Demo Adventure"@,
            r.start_room@ == "village"@,
            r.player_start_inventory@.len() == 0,
            r.rooms@.len() == 2,
            r.rooms@[0].id@ == "village"@,
            r.rooms@[0].title@ == "Quiet Village"@,
            r.rooms@[0].description@
                == "A small village with a single cobblestone path and a warm lantern glow."@,
            r.rooms@[0].exits@.dom() == set!["north"@],
            r.rooms@[0].exits@["north"@]@ == "forest"@,
            r.rooms@[0].items@.len() == 1,
            r.rooms@[0].items@[0].id@ == "key"@,
            r.rooms@[0].items@[0].name@ == "Ancient Key"@,
            r.rooms@[0].items@[0].description@ == "A tarnished key that seems to hum faintly."@,
            r.rooms@[1].id@ == "forest"@,
            r.rooms@[1].title@ == "Whispering Forest"@,
            r.rooms@[1].description@
                == "Tall pines sway as if sharing secrets. The village lies south."@,
            r.rooms@[1].exits@.dom() == set!["south"@],
            r.rooms@[1].exits@["south"@]@ == "village"@,
            r.rooms@[1].items@.len() == 0,
    {
        let mut village_exits: StrMap<String> = StrMap::new();
        let _ = village_exits.insert(String::from_str("north"), String::from_str("forest"));
        let mut forest_exits: StrMap<String> = StrMap::new();
        let _ = forest_exits.insert(String::from_str("south"), String::from_str("village"));
        let mut village_items: Vec<AdventureItem> = Vec::new();
        village_items.push(
            AdventureItem {
                id: String::from_str("key"),
                name: String::from_str("Ancient Key"),
                description: String::from_str("A tarnished key that seems to hum faintly."),
            },
        );
        let mut rooms: Vec<AdventureRoom> = Vec::new();
        rooms.push(
            AdventureRoom {
                id: String::from_str("village"),
                title: String::from_str("Quiet Village"),
                description: String::from_str(
                    "A small village with a single cobblestone path and a warm lantern glow.",
                ),
                exits: village_exits,
                items: village_items,
            },
        );
        rooms.push(
            AdventureRoom {
                id: String::from_str("forest"),
                title: String::from_str("Whispering Forest"),
                description: String::from_str(
                    "Tall pines sway as if sharing secrets. The village lies south.",
                ),
                exits: forest_exits,
                items: Vec::new(),
            },
        );
        let r = Adventure {
            id: String::from_str("demo"),
            title: String::from_str("Demo Adventure"),
            start_room: String::from_str("village"),
            rooms,
            player_start_inventory: Vec::new(),
        };
        proof {
            reveal_strlit("demo");
            reveal_strlit("Demo Adventure");
            reveal_strlit("village");
            reveal_strlit("forest");
            reveal_strlit("north");
            reveal_strlit("south");
            lemma_not_blank("demo"@);
            lemma_not_blank("Demo Adventure"@);
            lemma_not_blank("village"@);
            lemma_not_blank("forest"@);
            lemma_not_blank("north"@);
            lemma_not_blank("south"@);
            assert("village"@.len() != "forest"@.len());
            assert(r.rooms@[0].exits@.dom() =~= set!["north"@]);
            assert(r.rooms@[1].exits@.dom() =~= set!["south"@]);
            assert(r.rooms@[0].id@ == "village"@);
            assert(r.rooms@[1].id@ == "forest"@);
            assert(has_room(r.rooms@, "village"@));
            assert(has_room(r.rooms@, "forest"@));
            assert(exits_sound(r.rooms@, r.rooms@[0]));
            assert(exits_sound(r.rooms@, r.rooms@[1]));
        }
        r
    }
}

/// The mathematical value of an [`AdventureItem`].
pub struct ItemContent {
    pub id: Seq<char>,
    pub name: Seq<char>,
    pub description: Seq<char>,
}

impl View for AdventureItem {
    type V = ItemContent;

    open spec fn view(&self) -> ItemContent {
        ItemContent { id: self.id@, name: self.name@, description: self.description@ }
    }
}

/// The mathematical values of the items of a list, in order.
pub open spec fn item_contents(items: Seq<AdventureItem>) -> Seq<ItemContent> {
    Seq::new(items.len(), |i: int| items[i]@)
}

/// The mathematical value of an [`AdventureRoom`].
pub struct RoomContent {
    pub id: Seq<char>,
    pub title: Seq<char>,
    pub description: Seq<char>,
    pub exits: Map<Seq<char>, Seq<char>>,
    pub items: Seq<ItemContent>,
}

impl View for AdventureRoom {
    type V = RoomContent;

    open spec fn view(&self) -> RoomContent {
        RoomContent {
            id: self.id@,
            title: self.title@,
            description: self.description@,
            exits: text_map(self.exits@),
            items: item_contents(self.items@),
        }
    }
}

/// The mathematical value of an [`Adventure`]: what the document says,
/// whatever the order in which the exits of a room were written.
pub struct AdventureContent {
    pub id: Seq<char>,
    pub title: Seq<char>,
    pub start_room: Seq<char>,
    pub rooms: Seq<RoomContent>,
    pub player_start_inventory: Seq<ItemContent>,
}

impl View for Adventure {
    type V = AdventureContent;

    open spec fn view(&self) -> AdventureContent {
        AdventureContent {
            id: self.id@,
            title: self.title@,
            start_room: self.start_room@,
            rooms: Seq::new(self.rooms@.len(), |i: int| self.rooms@[i]@),
            player_start_inventory: item_contents(self.player_start_inventory@),
        }
    }
}

/// Whether one of the rooms of a content has the identifier `id`.
pub open spec fn content_has_room(rooms: Seq<RoomContent>, id: Seq<char>) -> bool {
    exists|i: int| 0 <= i < rooms.len() && #[trigger] rooms[i].id == id
}

/// What a sound document is, said of its content alone.
pub open spec fn sound_content(c: AdventureContent) -> bool {
    &&& !blank(c.id)
    &&& !blank(c.title)
    &&& !blank(c.start_room)
    &&& c.rooms.len() > 0
    &&& forall|i: int| 0 <= i < c.rooms.len() ==> !blank(#[trigger] c.rooms[i].id)
    &&& forall|i: int, j: int|
        0 <= j < i < c.rooms.len() ==> #[trigger] c.rooms[j].id != #[trigger] c.rooms[i].id
    &&& content_has_room(c.rooms, c.start_room)
    &&& forall|i: int, dir: Seq<char>|
        0 <= i < c.rooms.len() && (#[trigger] c.rooms[i].exits.contains_key(dir)) ==> !blank(dir)
            && !blank(c.rooms[i].exits[dir]) && content_has_room(c.rooms, c.rooms[i].exits[dir])
}

/// The items of the game that the items of a content become.
pub open spec fn items_of_content(items: Seq<ItemContent>) -> Seq<ItemView> {
    Seq::new(
        items.len(),
        |i: int| ItemView { id: items[i].id, name: items[i].name, description: items[i].description },
    )
}

/// The room of the game that the room of a content becomes.
pub open spec fn room_of_content(room: RoomContent) -> RoomView {
    RoomView {
        id: room.id,
        title: room.title,
        description: room.description,
        exits: room.exits,
        items: items_of_content(room.items),
    }
}

/// The position of a room of the content that has the identifier `id`.
pub open spec fn content_room_index(rooms: Seq<RoomContent>, id: Seq<char>) -> int {
    choose|i: int| 0 <= i < rooms.len() && #[trigger] rooms[i].id == id
}

/// The world model in which a game of a sound content starts for a player
/// called `player_name`.
pub open spec fn opening(c: AdventureContent, player_name: Seq<char>) -> GameStateView {
    GameStateView {
        world: Map::new(
            |id: Seq<char>| content_has_room(c.rooms, id),
            |id: Seq<char>| room_of_content(c.rooms[content_room_index(c.rooms, id)]),
        ),
        player: PlayerView {
            name: player_name,
            location: c.start_room,
            inventory: items_of_content(c.player_start_inventory),
            flags: Set::empty(),
        },
        variables: Map::empty(),
        is_over: false,
    }
}

proof fn lemma_has_room_of_content(a: Adventure, id: Seq<char>)
    ensures
        has_room(a.rooms@, id) <==> content_has_room(a@.rooms, id),
{
    if has_room(a.rooms@, id) {
        let i = choose|i: int| 0 <= i < a.rooms@.len() && #[trigger] a.rooms@[i].id@ == id;
        assert(a@.rooms[i].id == id);
    }
    if content_has_room(a@.rooms, id) {
        let i = choose|i: int| 0 <= i < a@.rooms.len() && #[trigger] a@.rooms[i].id == id;
        assert(a.rooms@[i].id@ == id);
    }
}

/// Whether a document is sound is a matter of its content alone.
pub proof fn law_soundness_is_of_the_content(a: Adventure)
    ensures
        sound(a) <==> sound_content(a@),
{
    let rooms = a.rooms@;
    let c = a@;
    lemma_has_room_of_content(a, a.start_room@);
    assert forall|i: int| 0 <= i < rooms.len() implies (exits_sound(rooms, #[trigger] rooms[i])
        <==> forall|dir: Seq<char>|
        (#[trigger] c.rooms[i].exits.contains_key(dir)) ==> !blank(dir) && !blank(
            c.rooms[i].exits[dir],
        ) && content_has_room(c.rooms, c.rooms[i].exits[dir])) by {
        let room = rooms[i];
        assert(c.rooms[i] == room@);
        if exits_sound(rooms, room) {
            assert forall|dir: Seq<char>| (#[trigger] c.rooms[i].exits.contains_key(dir)) implies !blank(
                dir,
            ) && !blank(c.rooms[i].exits[dir]) && content_has_room(c.rooms, c.rooms[i].exits[dir]) by {
                assert(room.exits@.contains_key(dir));
                lemma_has_room_of_content(a, room.exits@[dir]@);
            }
        }
        if forall|dir: Seq<char>|
            (#[trigger] c.rooms[i].exits.contains_key(dir)) ==> !blank(dir) && !blank(
                c.rooms[i].exits[dir],
            ) && content_has_room(c.rooms, c.rooms[i].exits[dir]) {
            assert forall|dir: Seq<char>| #[trigger] room.exits@.contains_key(dir) implies !blank(
                dir,
            ) && !blank(room.exits@[dir]@) && has_room(rooms, room.exits@[dir]@) by {
                assert(c.rooms[i].exits.contains_key(dir));
                lemma_has_room_of_content(a, room.exits@[dir]@);
            }
        }
    }
    if sound(a) {
        assert forall|i: int| 0 <= i < c.rooms.len() implies !blank(#[trigger] c.rooms[i].id) by {
            assert(!blank(rooms[i].id@));
        }
        assert forall|i: int, j: int| 0 <= j < i < c.rooms.len() implies #[trigger] c.rooms[j].id
            != #[trigger] c.rooms[i].id by {
            assert(rooms[j].id@ != rooms[i].id@);
        }
        assert forall|i: int, dir: Seq<char>|
            0 <= i < c.rooms.len() && (#[trigger] c.rooms[i].exits.contains_key(dir)) implies !blank(
            dir,
        ) && !blank(c.rooms[i].exits[dir]) && content_has_room(c.rooms, c.rooms[i].exits[dir]) by {
            assert(exits_sound(rooms, rooms[i]));
        }
    }
    if sound_content(c) {
        assert forall|i: int| 0 <= i < rooms.len() implies !blank(#[trigger] rooms[i].id@) by {
            assert(!blank(c.rooms[i].id));
        }
        assert forall|i: int, j: int| 0 <= j < i < rooms.len() implies #[trigger] rooms[j].id@
            != #[trigger] rooms[i].id@ by {
            assert(c.rooms[j].id != c.rooms[i].id);
        }
        assert forall|i: int| 0 <= i < rooms.len() implies exits_sound(rooms, #[trigger] rooms[i]) by {
            assert(c.rooms[i] == rooms[i]@);
        }
    }
}

/// The world model in which a game starts is a matter of the content of
/// the document and of the player's name alone: two documents that say the
/// same, however they were written down and read, open the same world.
pub proof fn law_world_is_of_the_content(a: Adventure, player_name: Seq<char>, state: GameState)
    requires
        sound(a),
        opens(a, player_name, state),
    ensures
        state@ == opening(a@, player_name),
{
    let c = a@;
    let want = opening(c, player_name);
    assert forall|id: Seq<char>| state@.world.contains_key(id) == want.world.contains_key(id) by {
        lemma_has_room_of_content(a, id);
    }
    assert forall|id: Seq<char>| state@.world.contains_key(id) implies #[trigger] state@.world[id]
        == want.world[id] by {
        lemma_has_room_of_content(a, id);
        let k = content_room_index(c.rooms, id);
        assert(c.rooms[k] == a.rooms@[k]@);
        assert(unfolds(a.rooms@[k], state.world@[a.rooms@[k].id@]));
        let room = state.world@[id];
        assert(room@.items =~= items_of_content(c.rooms[k].items));
        assert(room@.exits =~= c.rooms[k].exits);
    }
    assert(state@.world =~= want.world);
    assert(state@.player.inventory =~= want.player.inventory);
    assert(state@.variables =~= want.variables);
}

} // verus!
