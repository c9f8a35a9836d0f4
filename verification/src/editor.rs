//! The adventure editor without its screen: the command line of the
//! editor, its keys, and what each of them does to the adventure.

use vstd::prelude::*;
use crate::adventure::{Adventure, AdventureItem, AdventureRoom};
use crate::strmap::StrMap;
use crate::text::{
    blank, chars_of, concat2, concat3, eq_ignore_ascii_case, is_blank, is_space, is_whitespace,
    lower_ascii, push_char, slice_string, str_equal, texts, trim, trimmed,
};

verus! {

/// Whether `c` opens and closes a quoted stretch.
pub open spec fn is_quote(c: char) -> bool {
    c == '"' || c == '\''
}

/// `out` with the word `cur` added, unless `cur` is empty.
pub open spec fn with_word(out: Seq<Seq<char>>, cur: Seq<char>) -> Seq<Seq<char>> {
    if cur.len() > 0 {
        out.push(cur)
    } else {
        out
    }
}

/// The words of a command line from position `i` on: `cur` holds the word
/// that has begun, `quote` the quote that is open, and `out` the words
/// before. White space parts words, except between quotes; a backslash
/// between quotes takes the next character as it stands. Nothing if a quote
/// is left open.
pub open spec fn scanned(
    s: Seq<char>,
    i: int,
    cur: Seq<char>,
    quote: Option<char>,
    out: Seq<Seq<char>>,
) -> Option<Seq<Seq<char>>>
    decreases s.len() - i,
{
    if i < 0 || i >= s.len() {
        if quote is Some {
            None
        } else {
            Some(with_word(out, cur))
        }
    } else if quote is Some {
        if s[i] == quote->0 {
            scanned(s, i + 1, cur, None, out)
        } else if s[i] == '\\' {
            if i + 1 < s.len() {
                scanned(s, i + 2, cur.push(s[i + 1]), quote, out)
            } else {
                scanned(s, i + 1, cur, quote, out)
            }
        } else {
            scanned(s, i + 1, cur.push(s[i]), quote, out)
        }
    } else if is_space(s[i]) {
        scanned(s, i + 1, Seq::empty(), None, with_word(out, cur))
    } else if is_quote(s[i]) {
        scanned(s, i + 1, cur, Some(s[i]), out)
    } else {
        scanned(s, i + 1, cur.push(s[i]), None, out)
    }
}

/// The words of the command line `s`, or the error that a quote is left
/// open.
pub fn parse_words(s: &str) -> (r: Result<Vec<String>, String>)
    ensures
        r is Ok <==> scanned(s@, 0, Seq::empty(), None, Seq::empty()) is Some,
        r is Ok ==> texts(r->Ok_0@) == scanned(s@, 0, Seq::empty(), None, Seq::empty())->0,
        r is Err ==> r->Err_0@ == "unterminated quote"@,
{
    let v = chars_of(s);
    let mut out: Vec<String> = Vec::new();
    let mut cur = String::new();
    let mut quote: Option<char> = None;
    let mut i: usize = 0;
    assert(texts(out@) =~= Seq::<Seq<char>>::empty());
    while i < v.len()
        invariant
            v@ == s@,
            i <= v.len(),
            scanned(s@, i as int, cur@, quote, texts(out@)) == scanned(
                s@,
                0,
                Seq::empty(),
                None,
                Seq::empty(),
            ),
        decreases v.len() - i,
    {
        let c = v[i];
        let ghost was = texts(out@);
        let ghost word = cur@;
        match quote {
            Some(q) => {
                if c == q {
                    quote = None;
                    i = i + 1;
                } else if c == '\\' {
                    if i + 1 < v.len() {
                        cur.append(s.substring_char(i + 1, i + 2));
                        assert(s@.subrange(i + 1, i + 2) =~= seq![s@[i + 1]]);
                        assert(cur@ =~= word.push(s@[i + 1]));
                        i = i + 2;
                    } else {
                        i = i + 1;
                    }
                } else {
                    cur.append(s.substring_char(i, i + 1));
                    assert(s@.subrange(i as int, i + 1) =~= seq![s@[i as int]]);
                    assert(cur@ =~= word.push(s@[i as int]));
                    i = i + 1;
                }
            },
            None => {
                if is_whitespace(c) {
                    if cur.as_str().unicode_len() > 0 {
                        out.push(cur);
                        cur = String::new();
                        assert(texts(out@) =~= was.push(word));
                    } else {
                        assert(cur@ =~= Seq::<char>::empty());
                    }
                    i = i + 1;
                } else if c == '"' || c == '\'' {
                    quote = Some(c);
                    i = i + 1;
                } else {
                    cur.append(s.substring_char(i, i + 1));
                    assert(s@.subrange(i as int, i + 1) =~= seq![s@[i as int]]);
                    assert(cur@ =~= word.push(s@[i as int]));
                    i = i + 1;
                }
            },
        }
    }
    if quote.is_some() {
        return Err(String::from_str("unterminated quote"));
    }
    let ghost was = texts(out@);
    let ghost word = cur@;
    if cur.as_str().unicode_len() > 0 {
        out.push(cur);
        assert(texts(out@) =~= was.push(word));
    }
    Ok(out)
}

/// Whether the editor takes keys as they are or gathers a command.
#[derive(Debug, Clone, Copy, PartialEq, Eq, Structural)]
pub enum Mode {
    Normal,
    Command,
}

/// The editor: the adventure that is edited, the room that is selected,
/// the command that is being typed, and what the editor last had to say.
#[derive(Debug)]
pub struct App {
    pub file: String,
    pub adventure: Adventure,
    pub selected_room: usize,
    pub mode: Mode,
    pub cmd: String,
    pub status: String,
    /// Whether the adventure has changed since it was saved.
    pub dirty: bool,
    /// Whether the editor has warned of unsaved changes and waits for the
    /// second `q`.
    pub quit_confirm: bool,
}

/// The status by which the editor says that it is to be left.
pub open spec fn quit_status() -> Seq<char> {
    "quit"@
}

/// The position of the first room called `id`, or the number of rooms.
pub open spec fn room_index(rooms: Seq<AdventureRoom>, id: Seq<char>, i: int) -> int
    decreases rooms.len() - i,
{
    if i < 0 || i >= rooms.len() {
        rooms.len() as int
    } else if rooms[i].id@ == id {
        i
    } else {
        room_index(rooms, id, i + 1)
    }
}

/// The position of the first item at or after `i` whose name is `name`,
/// letter case in ASCII aside, or the number of items.
pub open spec fn item_index(items: Seq<AdventureItem>, name: Seq<char>, i: int) -> int
    decreases items.len() - i,
{
    if i < 0 || i >= items.len() {
        items.len() as int
    } else if lower_ascii(items[i].name@) == lower_ascii(name) {
        i
    } else {
        item_index(items, name, i + 1)
    }
}

proof fn lemma_room_index(rooms: Seq<AdventureRoom>, id: Seq<char>, i: int)
    requires
        0 <= i <= rooms.len(),
    ensures
        i <= room_index(rooms, id, i) <= rooms.len(),
    decreases rooms.len() - i,
{
    if i < rooms.len() && rooms[i].id@ != id {
        lemma_room_index(rooms, id, i + 1);
    }
}

proof fn lemma_item_index(items: Seq<AdventureItem>, name: Seq<char>, i: int)
    requires
        0 <= i <= items.len(),
    ensures
        i <= item_index(items, name, i) <= items.len(),
    decreases items.len() - i,
{
    if i < items.len() && lower_ascii(items[i].name@) != lower_ascii(name) {
        lemma_item_index(items, name, i + 1);
    }
}

fn find_room(rooms: &Vec<AdventureRoom>, id: &str) -> (r: Option<usize>)
    ensures
        r is Some <==> room_index(rooms@, id@, 0) < rooms@.len(),
        r is Some ==> r->0 == room_index(rooms@, id@, 0),
{
    proof {
        lemma_room_index(rooms@, id@, 0);
    }
    let mut i: usize = 0;
    while i < rooms.len()
        invariant
            i <= rooms@.len(),
            room_index(rooms@, id@, i as int) == room_index(rooms@, id@, 0),
        decreases rooms@.len() - i,
    {
        if str_equal(rooms[i].id.as_str(), id) {
            return Some(i);
        }
        i = i + 1;
    }
    None
}

fn find_item(items: &Vec<AdventureItem>, name: &str) -> (r: Option<usize>)
    ensures
        r is Some <==> item_index(items@, name@, 0) < items@.len(),
        r is Some ==> r->0 == item_index(items@, name@, 0),
{
    proof {
        lemma_item_index(items@, name@, 0);
    }
    let mut i: usize = 0;
    while i < items.len()
        invariant
            i <= items@.len(),
            item_index(items@, name@, i as int) == item_index(items@, name@, 0),
        decreases items@.len() - i,
    {
        if eq_ignore_ascii_case(items[i].name.as_str(), name) {
            return Some(i);
        }
        i = i + 1;
    }
    None
}

/// The position that `selected` is clamped to for `rooms` rooms: the last
/// room if it points behind them, and 0 if there is no room.
pub open spec fn clamped_to(selected: usize, rooms: nat) -> usize {
    if rooms == 0 {
        0
    } else if selected >= rooms {
        (rooms - 1) as usize
    } else {
        selected
    }
}

impl App {
    /// The invariant of the editor: that of the adventure it edits.
    pub open spec fn wf(&self) -> bool {
        self.adventure.wf()
    }

    /// Whether `after` is the editor `self` but for the adventure, the
    /// selection, the status and the mark of unsaved changes.
    pub open spec fn edited(&self, after: App) -> bool {
        &&& after.file == self.file
        &&& after.mode == self.mode
        &&& after.cmd == self.cmd
        &&& after.quit_confirm == self.quit_confirm
    }

    /// Whether `after` is the editor `self` with another status and
    /// nothing else changed.
    pub open spec fn told(&self, after: App, status: Seq<char>) -> bool {
        after == (App { status: after.status, ..*self }) && after.status@ == status
    }

    /// An editor for `adventure`, to be saved in `file`.
    pub fn new_with_file(file: String, adventure: Adventure) -> (r: Self)
        ensures
            r.file == file,
            r.adventure == adventure,
            r.selected_room == 0,
            r.mode == Mode::Normal,
            r.cmd@.len() == 0,
            r.status@ == "Press ':' for commands. 's' to save."@,
            !r.dirty,
            !r.quit_confirm,
    {
        App {
            file,
            adventure,
            selected_room: 0,
            mode: Mode::Normal,
            cmd: String::new(),
            status: String::from_str("Press ':' for commands. 's' to save."),
            dirty: false,
            quit_confirm: false,
        }
    }

    /// The room that is selected, if the selection points at one.
    pub fn selected_room(&self) -> (r: Option<&AdventureRoom>)
        ensures
            r is Some <==> self.selected_room < self.adventure.rooms@.len(),
            r is Some ==> *r->0 == self.adventure.rooms@[self.selected_room as int],
    {
        if self.selected_room < self.adventure.rooms.len() {
            Some(&self.adventure.rooms[self.selected_room])
        } else {
            None
        }
    }

    /// A mutable borrow of the room that is selected, if the selection
    /// points at one. What the caller leaves in it becomes that room.
    pub fn selected_room_mut(&mut self) -> (r: Option<&mut AdventureRoom>)
        ensures
            r is Some <==> old(self).selected_room < old(self).adventure.rooms@.len(),
            r is Some ==> *r->0 == old(self).adventure.rooms@[old(self).selected_room as int],
            r is Some ==> final(self).adventure.rooms@ == old(self).adventure.rooms@.update(
                old(self).selected_room as int,
                *final(r->0),
            ),
            r is None ==> final(self).adventure.rooms@ == old(self).adventure.rooms@,
            *final(self) == (App {
                adventure: Adventure { rooms: final(self).adventure.rooms, ..old(self).adventure },
                ..*old(self)
            }),
    {
        if self.selected_room < self.adventure.rooms.len() {
            Some(&mut self.adventure.rooms[self.selected_room])
        } else {
            None
        }
    }

    /// Brings the selection back to a room if it points behind the rooms.
    pub fn clamp_selection(&mut self)
        ensures
            *final(self) == (App {
                selected_room: clamped_to(
                    old(self).selected_room,
                    old(self).adventure.rooms@.len(),
                ),
                ..*old(self)
            }),
    {
        if self.adventure.rooms.len() == 0 {
            self.selected_room = 0;
        } else if self.selected_room >= self.adventure.rooms.len() {
            self.selected_room = self.adventure.rooms.len() - 1;
        }
    }

    /// Takes note of how saving the adventure went: `Ok` if it was written,
    /// and the reason if it was not.
    pub fn save_finished(&mut self, outcome: Result<(), String>)
        ensures
            match outcome {
                Ok(_) => *final(self) == (App {
                    status: final(self).status,
                    dirty: false,
                    quit_confirm: false,
                    ..*old(self)
                }) && final(self).status@ == "Saved "@ + old(self).file@,
                Err(why) => old(self).told(*final(self), "Save failed: "@ + why@),
            },
    {
        match outcome {
            Ok(_) => {
                self.status = concat2("Saved ", self.file.as_str());
                self.dirty = false;
                self.quit_confirm = false;
            },
            Err(why) => {
                self.status = concat2("Save failed: ", why.as_str());
            },
        }
    }
}

/// The word at position `i` of `words`, if there is one.
pub open spec fn word_at(words: Seq<Seq<char>>, i: int) -> Option<Seq<char>> {
    if 0 <= i < words.len() {
        Some(words[i])
    } else {
        None
    }
}

impl App {
    /// Whether `after` is the editor `self` with unsaved changes to the room
    /// that is selected, and to nothing else but the status.
    pub open spec fn room_changed(&self, after: App) -> bool {
        let rooms = self.adventure.rooms@;
        let sel = self.selected_room as int;
        &&& after == (App {
            adventure: Adventure { rooms: after.adventure.rooms, ..self.adventure },
            status: after.status,
            dirty: true,
            ..*self
        })
        &&& after.adventure.rooms@.len() == rooms.len()
        &&& forall|k: int|
            0 <= k < rooms.len() && k != sel ==> #[trigger] after.adventure.rooms@[k] == rooms[k]
        &&& after.adventure.rooms@[sel].id == rooms[sel].id
    }

    /// What a command on the exits of the selected room does. `exit set`
    /// with a direction and a destination sets that exit; `exit del` with a
    /// direction removes it; anything else is answered with the usage.
    pub open spec fn exit_command(&self, words: Seq<Seq<char>>, after: App) -> bool {
        let sel = self.selected_room as int;
        let room = self.adventure.rooms@[sel];
        let now = after.adventure.rooms@[sel];
        if self.selected_room >= self.adventure.rooms@.len() {
            self.told(after, "no room selected"@)
        } else if word_at(words, 1) == Some("set"@) {
            if words.len() > 3 {
                &&& self.room_changed(after)
                &&& now == (AdventureRoom { exits: now.exits, ..room })
                &&& now.exits@.dom() == room.exits@.dom().insert(words[2])
                &&& now.exits@[words[2]]@ == words[3]
                &&& forall|d: Seq<char>|
                    d != words[2] && room.exits@.contains_key(d) ==> #[trigger] now.exits@[d]
                        == room.exits@[d]
                &&& after.status@ == "Set exit '"@ + words[2] + "' -> '"@ + words[3] + "'"@
            } else {
                self.told(after, "usage: exit set <dir> <dest_room_id>"@)
            }
        } else if word_at(words, 1) == Some("del"@) {
            if words.len() > 2 {
                &&& self.room_changed(after)
                &&& now == (AdventureRoom { exits: now.exits, ..room })
                &&& now.exits@ == room.exits@.remove(words[2])
                &&& after.status@ == "Deleted exit '"@ + words[2] + "'"@
            } else {
                self.told(after, "usage: exit del <dir>"@)
            }
        } else {
            self.told(after, "usage: exit set <dir> <dest> | exit del <dir>"@)
        }
    }

    /// Carries out a command on the exits of the selected room.
    pub fn exec_exit_command(&mut self, words: &Vec<String>)
        requires
            old(self).wf(),
        ensures
            final(self).wf(),
            old(self).exit_command(texts(words@), *final(self)),
    {
        if self.selected_room >= self.adventure.rooms.len() {
            self.status = String::from_str("no room selected");
            return ;
        }
        let sel = self.selected_room;
        let ghost before = self.adventure.rooms@;
        assert(before[sel as int].exits.wf());
        if words.len() > 1 && str_equal(words[1].as_str(), "set") {
            if words.len() > 3 {
                assert(texts(words@)[2] == words@[2]@ && texts(words@)[3] == words@[3]@);
                let _ = self.adventure.rooms[sel].exits.insert(words[2].clone(), words[3].clone());
                self.dirty = true;
                self.status = String::from_str("Set exit '").concat(words[2].as_str()).concat(
                    "' -> '",
                ).concat(words[3].as_str()).concat("'");
                proof {
                    let now = self.adventure.rooms@[sel as int];
                    assert(now.exits@.dom() =~= before[sel as int].exits@.dom().insert(words@[2]@));
                }
            } else {
                self.status = String::from_str("usage: exit set <dir> <dest_room_id>");
            }
        } else if words.len() > 1 && str_equal(words[1].as_str(), "del") {
            if words.len() > 2 {
                assert(texts(words@)[2] == words@[2]@);
                let _ = self.adventure.rooms[sel].exits.remove(words[2].as_str());
                self.dirty = true;
                self.status = concat3("Deleted exit '", words[2].as_str(), "'");
            } else {
                self.status = String::from_str("usage: exit del <dir>");
            }
        } else {
            self.status = String::from_str("usage: exit set <dir> <dest> | exit del <dir>");
        }
    }

    /// What a command on the items of the selected room does. `item add`
    /// with identifier, name and description adds an item behind the
    /// others; `item del` with a name removes the first item of that name,
    /// letter case in ASCII aside; anything else is answered with the usage.
    pub open spec fn item_command(&self, words: Seq<Seq<char>>, after: App) -> bool {
        let sel = self.selected_room as int;
        let room = self.adventure.rooms@[sel];
        let now = after.adventure.rooms@[sel];
        if self.selected_room >= self.adventure.rooms@.len() {
            self.told(after, "no room selected"@)
        } else if word_at(words, 1) == Some("add"@) {
            if words.len() > 4 {
                &&& self.room_changed(after)
                &&& now == (AdventureRoom { items: now.items, ..room })
                &&& now.items@.len() == room.items@.len() + 1
                &&& now.items@.drop_last() == room.items@
                &&& now.items@.last().id@ == words[2]
                &&& now.items@.last().name@ == words[3]
                &&& now.items@.last().description@ == words[4]
                &&& after.status@ == "Added item '"@ + words[3] + "'"@
            } else {
                self.told(after, "usage: item add <id> <name> <desc>"@)
            }
        } else if word_at(words, 1) == Some("del"@) {
            if words.len() > 2 {
                let k = item_index(room.items@, words[2], 0);
                if k < room.items@.len() {
                    &&& self.room_changed(after)
                    &&& now == (AdventureRoom { items: now.items, ..room })
                    &&& now.items@ == room.items@.remove(k)
                    &&& after.status@ == "Deleted item '"@ + room.items@[k].name@ + "'"@
                } else {
                    self.told(after, "No such item in room"@)
                }
            } else {
                self.told(after, "usage: item del <name>"@)
            }
        } else {
            self.told(after, "usage: item add <id> <name> <desc> | item del <name>"@)
        }
    }

    /// Carries out a command on the items of the selected room.
    pub fn exec_item_command(&mut self, words: &Vec<String>)
        requires
            old(self).wf(),
        ensures
            final(self).wf(),
            old(self).item_command(texts(words@), *final(self)),
    {
        if self.selected_room >= self.adventure.rooms.len() {
            self.status = String::from_str("no room selected");
            return ;
        }
        let sel = self.selected_room;
        let ghost before = self.adventure.rooms@;
        assert(before[sel as int].exits.wf());
        if words.len() > 1 && str_equal(words[1].as_str(), "add") {
            if words.len() > 4 {
                assert(texts(words@)[2] == words@[2]@ && texts(words@)[3] == words@[3]@ && texts(
                    words@,
                )[4] == words@[4]@);
                self.adventure.rooms[sel].items.push(
                    AdventureItem {
                        id: words[2].clone(),
                        name: words[3].clone(),
                        description: words[4].clone(),
                    },
                );
                self.dirty = true;
                self.status = concat3("Added item '", words[3].as_str(), "'");
                proof {
                    let now = self.adventure.rooms@[sel as int];
                    assert(now.items@.drop_last() =~= before[sel as int].items@);
                }
            } else {
                self.status = String::from_str("usage: item add <id> <name> <desc>");
            }
        } else if words.len() > 1 && str_equal(words[1].as_str(), "del") {
            if words.len() > 2 {
                assert(texts(words@)[2] == words@[2]@);
                match find_item(&self.adventure.rooms[sel].items, words[2].as_str()) {
                    Some(i) => {
                        let removed = self.adventure.rooms[sel].items.remove(i);
                        self.dirty = true;
                        self.status = concat3("Deleted item '", removed.name.as_str(), "'");
                    },
                    None => {
                        self.status = String::from_str("No such item in room");
                    },
                }
            } else {
                self.status = String::from_str("usage: item del <name>");
            }
        } else {
            self.status = String::from_str("usage: item add <id> <name> <desc> | item del <name>");
        }
    }
}

/// What the editor is asked to do with the file of the adventure.
#[derive(Debug, Clone, Copy, PartialEq, Eq, Structural)]
pub enum Request {
    /// Nothing: the command has been carried out.
    Nothing,
    /// Save the adventure and report how it went.
    Save,
    /// Save the adventure, report how it went, and leave the editor.
    SaveAndQuit,
}

impl App {
    /// What a command on the rooms does. `room add` with an identifier adds
    /// a room of that name unless there is one, selects it, and makes it the
    /// start room if there is none. `room del` removes the room of the given
    /// identifier, or the selected room. `room set` with `title`, `desc` or
    /// `description` and a text sets that text of the selected room.
    /// Anything else is answered with the usage.
    pub open spec fn room_command(&self, words: Seq<Seq<char>>, after: App) -> bool {
        let rooms = self.adventure.rooms@;
        let sel = self.selected_room as int;
        if word_at(words, 1) == Some("add"@) {
            if words.len() <= 2 {
                self.told(after, "usage: room add <id>"@)
            } else if room_index(rooms, words[2], 0) < rooms.len() {
                self.told(after, "room id already exists: "@ + words[2])
            } else {
                &&& self.edited(after)
                &&& after.dirty
                &&& after.status@ == "Added room '"@ + words[2] + "'"@
                &&& after.selected_room == rooms.len()
                &&& after.adventure == (Adventure {
                    rooms: after.adventure.rooms,
                    start_room: after.adventure.start_room,
                    ..self.adventure
                })
                &&& after.adventure.start_room@ == if blank(self.adventure.start_room@) {
                    words[2]
                } else {
                    self.adventure.start_room@
                }
                &&& after.adventure.rooms@.len() == rooms.len() + 1
                &&& after.adventure.rooms@.drop_last() == rooms
                &&& after.adventure.rooms@.last().id@ == words[2]
                &&& after.adventure.rooms@.last().title@ == words[2]
                &&& after.adventure.rooms@.last().description@.len() == 0
                &&& after.adventure.rooms@.last().exits@ == Map::<Seq<char>, String>::empty()
                &&& after.adventure.rooms@.last().items@.len() == 0
            }
        } else if word_at(words, 1) == Some("del"@) {
            if words.len() <= 2 && sel >= rooms.len() {
                self.told(after, "no room selected"@)
            } else {
                let id = if words.len() > 2 {
                    words[2]
                } else {
                    rooms[sel].id@
                };
                let k = room_index(rooms, id, 0);
                if k < rooms.len() {
                    &&& self.edited(after)
                    &&& after.dirty
                    &&& after.status@ == "Deleted room '"@ + id + "'"@
                    &&& after.adventure == (Adventure {
                        rooms: after.adventure.rooms,
                        ..self.adventure
                    })
                    &&& after.adventure.rooms@ == rooms.remove(k)
                    &&& after.selected_room == clamped_to(
                        self.selected_room,
                        (rooms.len() - 1) as nat,
                    )
                } else {
                    self.told(after, "no such room: "@ + id)
                }
            }
        } else if word_at(words, 1) == Some("set"@) {
            if words.len() <= 3 {
                self.told(after, "usage: room set title|desc <text>"@)
            } else if sel >= rooms.len() {
                self.told(after, "no room selected"@)
            } else if words[2] == "title"@ {
                &&& self.room_changed(after)
                &&& after.adventure.rooms@[sel] == (AdventureRoom {
                    title: after.adventure.rooms@[sel].title,
                    ..rooms[sel]
                })
                &&& after.adventure.rooms@[sel].title@ == words[3]
                &&& after.status@ == "Updated room title"@
            } else if words[2] == "desc"@ || words[2] == "description"@ {
                &&& self.room_changed(after)
                &&& after.adventure.rooms@[sel] == (AdventureRoom {
                    description: after.adventure.rooms@[sel].description,
                    ..rooms[sel]
                })
                &&& after.adventure.rooms@[sel].description@ == words[3]
                &&& after.status@ == "Updated room description"@
            } else {
                self.told(after, "usage: room set title|desc <text>"@)
            }
        } else {
            self.told(
                after,
                "usage: room add <id> | room del <id?> | room set title|desc <text>"@,
            )
        }
    }

    /// Carries out a command on the rooms.
    pub fn exec_room_command(&mut self, words: &Vec<String>)
        requires
            old(self).wf(),
        ensures
            final(self).wf(),
            old(self).room_command(texts(words@), *final(self)),
    {
        let ghost rooms = self.adventure.rooms@;
        if words.len() > 1 && str_equal(words[1].as_str(), "add") {
            if words.len() <= 2 {
                self.status = String::from_str("usage: room add <id>");
                return ;
            }
            let id = &words[2];
            assert(texts(words@)[2] == id@);
            if find_room(&self.adventure.rooms, id.as_str()).is_some() {
                self.status = concat2("room id already exists: ", id.as_str());
                return ;
            }
            self.adventure.rooms.push(
                AdventureRoom {
                    id: id.clone(),
                    title: id.clone(),
                    description: String::new(),
                    exits: StrMap::new(),
                    items: Vec::new(),
                },
            );
            self.selected_room = self.adventure.rooms.len() - 1;
            if is_blank(self.adventure.start_room.as_str()) {
                self.adventure.start_room = id.clone();
            }
            self.dirty = true;
            self.status = concat3("Added room '", id.as_str(), "'");
            assert(self.adventure.rooms@.drop_last() =~= rooms);
        } else if words.len() > 1 && str_equal(words[1].as_str(), "del") {
            let id: String = if words.len() > 2 {
                assert(texts(words@)[2] == words@[2]@);
                words[2].clone()
            } else {
                match self.selected_room() {
                    Some(room) => room.id.clone(),
                    None => {
                        self.status = String::from_str("no room selected");
                        return ;
                    },
                }
            };
            match find_room(&self.adventure.rooms, id.as_str()) {
                Some(idx) => {
                    let _ = self.adventure.rooms.remove(idx);
                    self.clamp_selection();
                    self.dirty = true;
                    self.status = concat3("Deleted room '", id.as_str(), "'");
                },
                None => {
                    self.status = concat2("no such room: ", id.as_str());
                },
            }
        } else if words.len() > 1 && str_equal(words[1].as_str(), "set") {
            if words.len() <= 3 {
                self.status = String::from_str("usage: room set title|desc <text>");
                return ;
            }
            assert(texts(words@)[2] == words@[2]@ && texts(words@)[3] == words@[3]@);
            if self.selected_room >= self.adventure.rooms.len() {
                self.status = String::from_str("no room selected");
                return ;
            }
            let sel = self.selected_room;
            assert(rooms[sel as int].exits.wf());
            if str_equal(words[2].as_str(), "title") {
                self.adventure.rooms[sel].title = words[3].clone();
                self.dirty = true;
                self.status = String::from_str("Updated room title");
            } else if str_equal(words[2].as_str(), "desc") || str_equal(
                words[2].as_str(),
                "description",
            ) {
                self.adventure.rooms[sel].description = words[3].clone();
                self.dirty = true;
                self.status = String::from_str("Updated room description");
            } else {
                self.status = String::from_str("usage: room set title|desc <text>");
            }
        } else {
            self.status = String::from_str(
                "usage: room add <id> | room del <id?> | room set title|desc <text>",
            );
        }
    }

    /// What a line of the command mode does, where the line has words and
    /// no quote is left open. `w` and `write` ask for the adventure to be
    /// saved, `wq` for that and to leave; `q` and `quit` leave; `set start`
    /// names the start room; `room`, `exit` and `item` edit the adventure.
    pub open spec fn word_command(&self, words: Seq<Seq<char>>, after: App, request: Request) -> bool {
        let verb = words[0];
        if verb == "help"@ {
            request == Request::Nothing && self.told(
                after,
                "Commands: w, q, wq, set start <room>, room add/del/set, exit set/del, item add/del"@,
            )
        } else if verb == "w"@ || verb == "write"@ {
            request == Request::Save && after == *self
        } else if verb == "q"@ || verb == "quit"@ {
            request == Request::Nothing && self.told(after, quit_status())
        } else if verb == "wq"@ {
            request == Request::SaveAndQuit && after == *self
        } else if verb == "set"@ {
            request == Request::Nothing && if word_at(words, 1) == Some("start"@) && words.len()
                > 2 {
                &&& after == (App {
                    adventure: Adventure {
                        start_room: after.adventure.start_room,
                        ..self.adventure
                    },
                    status: after.status,
                    dirty: true,
                    ..*self
                })
                &&& after.adventure.start_room@ == words[2]
                &&& after.status@ == "start_room set to '"@ + words[2] + "'"@
            } else {
                self.told(after, "usage: set start <room_id>"@)
            }
        } else if verb == "room"@ {
            request == Request::Nothing && self.room_command(words, after)
        } else if verb == "exit"@ {
            request == Request::Nothing && self.exit_command(words, after)
        } else if verb == "item"@ {
            request == Request::Nothing && self.item_command(words, after)
        } else {
            request == Request::Nothing && self.told(after, "Unknown command: "@ + verb)
        }
    }

    /// What a line of the command mode does. A blank line and a line
    /// without words do nothing; a line with an open quote is answered with
    /// the error.
    pub open spec fn command(&self, raw: Seq<char>, after: App, request: Request) -> bool {
        let line = trimmed(raw);
        if line.len() == 0 {
            request == Request::Nothing && after == *self
        } else {
            match scanned(line, 0, Seq::empty(), None, Seq::empty()) {
                None => request == Request::Nothing && self.told(
                    after,
                    "Command parse error: "@ + "unterminated quote"@,
                ),
                Some(words) => if words.len() == 0 {
                    request == Request::Nothing && after == *self
                } else {
                    self.word_command(words, after, request)
                },
            }
        }
    }

    /// Carries out a line of the command mode, and says what is to be done
    /// with the file.
    pub fn exec_command(&mut self, raw: &str) -> (request: Request)
        requires
            old(self).wf(),
        ensures
            final(self).wf(),
            old(self).command(raw@, *final(self), request),
    {
        let line = trim(raw);
        if line.as_str().unicode_len() == 0 {
            return Request::Nothing;
        }
        let words = match parse_words(line.as_str()) {
            Ok(w) => w,
            Err(msg) => {
                self.status = concat2("Command parse error: ", msg.as_str());
                return Request::Nothing;
            },
        };
        if words.len() == 0 {
            return Request::Nothing;
        }
        assert(texts(words@)[0] == words@[0]@);
        let verb = words[0].as_str();
        if str_equal(verb, "help") {
            self.status = String::from_str(
                "Commands: w, q, wq, set start <room>, room add/del/set, exit set/del, item add/del",
            );
            Request::Nothing
        } else if str_equal(verb, "w") || str_equal(verb, "write") {
            Request::Save
        } else if str_equal(verb, "q") || str_equal(verb, "quit") {
            self.status = String::from_str("quit");
            Request::Nothing
        } else if str_equal(verb, "wq") {
            Request::SaveAndQuit
        } else if str_equal(verb, "set") {
            if words.len() > 2 && str_equal(words[1].as_str(), "start") {
                assert(texts(words@)[2] == words@[2]@);
                self.adventure.start_room = words[2].clone();
                self.dirty = true;
                self.status = concat3("start_room set to '", words[2].as_str(), "'");
            } else {
                self.status = String::from_str("usage: set start <room_id>");
            }
            Request::Nothing
        } else if str_equal(verb, "room") {
            self.exec_room_command(&words);
            Request::Nothing
        } else if str_equal(verb, "exit") {
            self.exec_exit_command(&words);
            Request::Nothing
        } else if str_equal(verb, "item") {
            self.exec_item_command(&words);
            Request::Nothing
        } else {
            self.status = concat2("Unknown command: ", verb);
            Request::Nothing
        }
    }

    /// Takes note that the editor is to be left.
    pub fn quit_requested(&mut self)
        ensures
            old(self).told(*final(self), quit_status()),
    {
        self.status = String::from_str("quit");
    }

    /// Whether the editor has been told to leave.
    pub fn wants_to_quit(&self) -> (r: bool)
        ensures
            r == (self.status@ == quit_status()),
    {
        str_equal(self.status.as_str(), "quit")
    }
}

/// The keys that are held down with a key.
#[derive(Debug, Clone, Copy, PartialEq, Eq, Structural)]
pub enum Modifiers {
    Plain,
    Shift,
    Control,
    /// Any other key or combination of keys.
    Other,
}

/// A key as the editor takes it.
#[derive(Debug, Clone, Copy, PartialEq, Eq, Structural)]
pub enum Key {
    Char(char, Modifiers),
    Up,
    Down,
    Esc,
    Enter,
    Backspace,
    /// Any other key.
    Other,
}

/// What a key comes to.
#[derive(Debug, Clone, Copy, PartialEq, Eq, Structural)]
pub struct KeyOutcome {
    /// Whether the editor is to be left.
    pub quit: bool,
    /// What is to be done with the file of the adventure.
    pub request: Request,
}

impl App {
    /// What a key does in normal mode. Control and `c` leave the editor;
    /// `q` leaves it once there are no unsaved changes or the warning has
    /// been given; `s` asks for the adventure to be saved; the colon opens
    /// the command line; the arrows move the selection. Every key but `q`
    /// and `s` withdraws the warning.
    pub open spec fn normal_key(&self, key: Key, after: App, outcome: KeyOutcome) -> bool {
        let stay = KeyOutcome { quit: false, request: Request::Nothing };
        let leave = KeyOutcome { quit: true, request: Request::Nothing };
        match key {
            Key::Char(c, modifiers) => if c == 'c' && modifiers == Modifiers::Control {
                after == *self && outcome == leave
            } else if c == 'q' {
                if self.dirty && !self.quit_confirm {
                    &&& after == (App { quit_confirm: true, status: after.status, ..*self })
                    &&& after.status@
                        == "Unsaved changes. Press q again to quit, or save with s."@
                    &&& outcome == stay
                } else {
                    after == *self && outcome == leave
                }
            } else if c == 's' {
                after == *self && outcome == (KeyOutcome { quit: false, request: Request::Save })
            } else if c == ':' {
                &&& after == (App {
                    mode: Mode::Command,
                    cmd: after.cmd,
                    quit_confirm: false,
                    ..*self
                })
                &&& after.cmd@.len() == 0
                &&& outcome == stay
            } else {
                after == *self && outcome == stay
            },
            Key::Up => after == (App {
                selected_room: if self.selected_room > 0 {
                    (self.selected_room - 1) as usize
                } else {
                    self.selected_room
                },
                quit_confirm: false,
                ..*self
            }) && outcome == (KeyOutcome { quit: false, request: Request::Nothing }),
            Key::Down => after == (App {
                selected_room: if self.selected_room + 1 < self.adventure.rooms@.len() {
                    (self.selected_room + 1) as usize
                } else {
                    self.selected_room
                },
                quit_confirm: false,
                ..*self
            }) && outcome == (KeyOutcome { quit: false, request: Request::Nothing }),
            _ => after == *self && outcome == (KeyOutcome {
                quit: false,
                request: Request::Nothing,
            }),
        }
    }

    /// Takes a key in normal mode.
    pub fn handle_key_normal(&mut self, key: Key) -> (outcome: KeyOutcome)
        ensures
            old(self).normal_key(key, *final(self), outcome),
    {
        let stay = KeyOutcome { quit: false, request: Request::Nothing };
        let leave = KeyOutcome { quit: true, request: Request::Nothing };
        match key {
            Key::Char(c, modifiers) => {
                if c == 'c' && modifiers == Modifiers::Control {
                    leave
                } else if c == 'q' {
                    if self.dirty {
                        if self.quit_confirm {
                            leave
                        } else {
                            self.quit_confirm = true;
                            self.status = String::from_str(
                                "Unsaved changes. Press q again to quit, or save with s.",
                            );
                            stay
                        }
                    } else {
                        leave
                    }
                } else if c == 's' {
                    KeyOutcome { quit: false, request: Request::Save }
                } else if c == ':' {
                    self.mode = Mode::Command;
                    self.cmd = String::new();
                    self.quit_confirm = false;
                    stay
                } else {
                    stay
                }
            },
            Key::Up => {
                if self.selected_room > 0 {
                    self.selected_room = self.selected_room - 1;
                }
                self.quit_confirm = false;
                stay
            },
            Key::Down => {
                let n = self.adventure.rooms.len();
                if self.selected_room < n && self.selected_room + 1 < n {
                    self.selected_room = self.selected_room + 1;
                }
                self.quit_confirm = false;
                stay
            },
            _ => stay,
        }
    }

    /// What a key does in command mode. Escape drops the command; Enter
    /// carries it out; Backspace takes its last character away; a character
    /// typed plainly or with Shift is added to it.
    pub open spec fn command_key(&self, key: Key, after: App, outcome: KeyOutcome) -> bool {
        match key {
            Key::Esc => {
                &&& after == (App { mode: Mode::Normal, cmd: after.cmd, ..*self })
                &&& after.cmd@.len() == 0
                &&& outcome == (KeyOutcome { quit: false, request: Request::Nothing })
            },
            Key::Enter => exists|ready: App| #[trigger]
                ready.command(self.cmd@, after, outcome.request) && ready == (App {
                    mode: Mode::Normal,
                    cmd: ready.cmd,
                    ..*self
                }) && ready.cmd@.len() == 0 && outcome.quit == (after.status@ == quit_status()),
            Key::Backspace => {
                &&& after == (App { cmd: after.cmd, ..*self })
                &&& after.cmd@ == if self.cmd@.len() > 0 {
                    self.cmd@.drop_last()
                } else {
                    self.cmd@
                }
                &&& outcome == (KeyOutcome { quit: false, request: Request::Nothing })
            },
            Key::Char(c, Modifiers::Plain) | Key::Char(c, Modifiers::Shift) => {
                &&& after == (App { cmd: after.cmd, ..*self })
                &&& after.cmd@ == self.cmd@.push(c)
                &&& outcome == (KeyOutcome { quit: false, request: Request::Nothing })
            },
            _ => after == *self && outcome == (KeyOutcome {
                quit: false,
                request: Request::Nothing,
            }),
        }
    }

    /// Takes a key in command mode.
    pub fn handle_key_command(&mut self, key: Key) -> (outcome: KeyOutcome)
        requires
            old(self).wf(),
        ensures
            final(self).wf(),
            old(self).command_key(key, *final(self), outcome),
    {
        let stay = KeyOutcome { quit: false, request: Request::Nothing };
        match key {
            Key::Esc => {
                self.mode = Mode::Normal;
                self.cmd = String::new();
                stay
            },
            Key::Enter => {
                let cmd = self.cmd.clone();
                self.cmd = String::new();
                self.mode = Mode::Normal;
                let ghost ready = *self;
                let request = self.exec_command(cmd.as_str());
                let quit = self.wants_to_quit();
                assert(ready.command(old(self).cmd@, *self, request));
                KeyOutcome { quit, request }
            },
            Key::Backspace => {
                let n = self.cmd.as_str().unicode_len();
                if n > 0 {
                    self.cmd = slice_string(self.cmd.as_str(), 0, n - 1);
                }
                stay
            },
            Key::Char(c, modifiers) => {
                if modifiers == Modifiers::Plain || modifiers == Modifiers::Shift {
                    push_char(&mut self.cmd, c);
                }
                stay
            },
            _ => stay,
        }
    }

    /// Takes a key in the mode the editor is in.
    pub fn handle_key(&mut self, key: Key) -> (outcome: KeyOutcome)
        requires
            old(self).wf(),
        ensures
            final(self).wf(),
            old(self).mode == Mode::Normal ==> old(self).normal_key(key, *final(self), outcome),
            old(self).mode == Mode::Command ==> old(self).command_key(key, *final(self), outcome),
    {
        match self.mode {
            Mode::Normal => self.handle_key_normal(key),
            Mode::Command => self.handle_key_command(key),
        }
    }
}

/// What the command line of the editor asks for.
#[derive(Debug, Default, Clone, PartialEq, Eq)]
pub struct Args {
    /// The adventure to open.
    pub file: Option<String>,
    /// The adventure to start anew.
    pub new: Option<String>,
    /// Whether the help is to be shown.
    pub show_help: bool,
}

/// The mathematical value of [`Args`].
pub struct ArgsView {
    pub file: Option<Seq<char>>,
    pub new: Option<Seq<char>>,
    pub show_help: bool,
}

impl View for Args {
    type V = ArgsView;

    open spec fn view(&self) -> ArgsView {
        ArgsView {
            file: match self.file {
                Some(p) => Some(p@),
                None => None,
            },
            new: match self.new {
                Some(p) => Some(p@),
                None => None,
            },
            show_help: self.show_help,
        }
    }
}

/// What the arguments from position `i` on ask for, on top of `so_far`.
/// `--help` and an option without its value ask for the help, and end the
/// reading. The first argument that is no option names the file to open,
/// unless a file is named already.
pub open spec fn read_args(argv: Seq<Seq<char>>, i: int, so_far: ArgsView) -> ArgsView
    decreases argv.len() - i,
{
    if i < 0 || i >= argv.len() {
        so_far
    } else if argv[i] == "--help"@ || argv[i] == "-h"@ {
        ArgsView { show_help: true, ..so_far }
    } else if argv[i] == "--file"@ || argv[i] == "-f"@ {
        if i + 1 < argv.len() {
            read_args(argv, i + 2, ArgsView { file: Some(argv[i + 1]), ..so_far })
        } else {
            ArgsView { show_help: true, ..so_far }
        }
    } else if argv[i] == "--new"@ {
        if i + 1 < argv.len() {
            read_args(argv, i + 2, ArgsView { new: Some(argv[i + 1]), ..so_far })
        } else {
            ArgsView { show_help: true, ..so_far }
        }
    } else if so_far.file is None && so_far.new is None {
        read_args(argv, i + 1, ArgsView { file: Some(argv[i]), ..so_far })
    } else {
        read_args(argv, i + 1, so_far)
    }
}

/// The adventure that is edited if none is named.
pub open spec fn default_file() -> Seq<char> {
    "rust/adventures/demo_adventure.json"@
}

impl Args {
    /// The file that the editor works on, and whether the adventure in it
    /// is to be started anew: the file to open if one is named, else the
    /// file to start anew, else the demonstration adventure.
    pub fn target(&self) -> (r: (String, bool))
        ensures
            r.1 == self.new is Some,
            r.0@ == match (self@.file, self@.new) {
                (Some(p), _) => p,
                (None, Some(p)) => p,
                (None, None) => default_file(),
            },
    {
        let is_new = self.new.is_some();
        let path = match &self.file {
            Some(p) => p.clone(),
            None => match &self.new {
                Some(p) => p.clone(),
                None => String::from_str("rust/adventures/demo_adventure.json"),
            },
        };
        (path, is_new)
    }

    /// Reads the arguments of the command line.
    pub fn parse(argv: Vec<String>) -> (r: Self)
        ensures
            r@ == read_args(
                texts(argv@),
                0,
                ArgsView { file: None, new: None, show_help: false },
            ),
    {
        let mut out = Args { file: None, new: None, show_help: false };
        let ghost all = texts(argv@);
        let mut i: usize = 0;
        while i < argv.len()
            invariant
                i <= argv@.len(),
                all == texts(argv@),
                read_args(all, i as int, out@) == read_args(
                    all,
                    0,
                    ArgsView { file: None, new: None, show_help: false },
                ),
            decreases argv@.len() - i,
        {
            let arg = argv[i].as_str();
            assert(all[i as int] == arg@);
            if str_equal(arg, "--help") || str_equal(arg, "-h") {
                out.show_help = true;
                return out;
            } else if str_equal(arg, "--file") || str_equal(arg, "-f") {
                if i + 1 < argv.len() {
                    assert(all[i + 1] == argv@[i + 1]@);
                    out.file = Some(argv[i + 1].clone());
                    i = i + 2;
                } else {
                    out.show_help = true;
                    return out;
                }
            } else if str_equal(arg, "--new") {
                if i + 1 < argv.len() {
                    assert(all[i + 1] == argv@[i + 1]@);
                    out.new = Some(argv[i + 1].clone());
                    i = i + 2;
                } else {
                    out.show_help = true;
                    return out;
                }
            } else {
                if out.file.is_none() && out.new.is_none() {
                    out.file = Some(argv[i].clone());
                }
                i = i + 1;
            }
        }
        out
    }
}

/// What the command line of the player asks for.
#[derive(Debug, Clone, PartialEq, Eq)]
pub enum PlayerArgs {
    /// Play the adventure in this file.
    Play(String),
    /// Show the help and leave.
    Help,
}

/// The adventure that is played if none is named.
pub open spec fn default_adventure() -> Seq<char> {
    "adventures/infinite_archive.json"@
}

/// What the arguments of the player from position `i` on ask for, where
/// `path` is the adventure named so far: `--adventure` names the
/// adventure, `--help` and `--adventure` without a file ask for the help,
/// and anything else is passed over.
pub open spec fn read_player_args(argv: Seq<Seq<char>>, i: int, path: Seq<char>) -> Option<
    Seq<char>,
>
    decreases argv.len() - i,
{
    if i < 0 || i >= argv.len() {
        Some(path)
    } else if argv[i] == "--help"@ || argv[i] == "-h"@ {
        None
    } else if argv[i] == "--adventure"@ || argv[i] == "-a"@ {
        if i + 1 < argv.len() {
            read_player_args(argv, i + 2, argv[i + 1])
        } else {
            None
        }
    } else {
        read_player_args(argv, i + 1, path)
    }
}

/// Reads the arguments of the command line of the player.
pub fn parse_args(argv: Vec<String>) -> (r: PlayerArgs)
    ensures
        match read_player_args(texts(argv@), 0, default_adventure()) {
            Some(path) => r matches PlayerArgs::Play(p) && p@ == path,
            None => r is Help,
        },
{
    let mut path = String::from_str("adventures/infinite_archive.json");
    let ghost all = texts(argv@);
    let mut i: usize = 0;
    while i < argv.len()
        invariant
            i <= argv@.len(),
            all == texts(argv@),
            read_player_args(all, i as int, path@) == read_player_args(
                all,
                0,
                default_adventure(),
            ),
        decreases argv@.len() - i,
    {
        let arg = argv[i].as_str();
        assert(all[i as int] == arg@);
        if str_equal(arg, "--help") || str_equal(arg, "-h") {
            return PlayerArgs::Help;
        } else if str_equal(arg, "--adventure") || str_equal(arg, "-a") {
            if i + 1 < argv.len() {
                assert(all[i + 1] == argv@[i + 1]@);
                path = argv[i + 1].clone();
                i = i + 2;
            } else {
                return PlayerArgs::Help;
            }
        } else {
            i = i + 1;
        }
    }
    PlayerArgs::Play(path)
}

} // verus!
