//! The store of raw game data: the documents of rooms, items, monsters and
//! of any other kind of entity, each kind filed by number.

use vstd::prelude::*;
use crate::json::{get_some_int, some_int_field};
use crate::services::Service;
use crate::strmap::StrMap;

verus! {

/// The position of the first entry at or after `i` that is filed under
/// `id`, or the length of `list`.
pub open spec fn entry_index(list: Seq<(i64, serde_json::Value)>, id: i64, i: int) -> int
    decreases list.len() - i,
{
    if i < 0 || i >= list.len() {
        list.len() as int
    } else if list[i].0 == id {
        i
    } else {
        entry_index(list, id, i + 1)
    }
}

/// The document filed under `id` in `list`, if there is one.
pub open spec fn filed(list: Seq<(i64, serde_json::Value)>, id: i64) -> Option<serde_json::Value> {
    let k = entry_index(list, id, 0);
    if k < list.len() {
        Some(list[k].1)
    } else {
        None
    }
}

/// `list` with `data` filed under `id`: in place of what was filed there,
/// or behind the other entries.
pub open spec fn put(list: Seq<(i64, serde_json::Value)>, id: i64, data: serde_json::Value) -> Seq<
    (i64, serde_json::Value),
> {
    let k = entry_index(list, id, 0);
    if k < list.len() {
        list.update(k, (id, data))
    } else {
        list.push((id, data))
    }
}

/// `list` without what is filed under `id`.
pub open spec fn taken(list: Seq<(i64, serde_json::Value)>, id: i64) -> Seq<
    (i64, serde_json::Value),
> {
    let k = entry_index(list, id, 0);
    if k < list.len() {
        list.remove(k)
    } else {
        list
    }
}

/// The documents of `list` whose member `key` is the whole number `wanted`,
/// in order.
pub open spec fn matching(list: Seq<(i64, serde_json::Value)>, key: Seq<char>, wanted: i64) -> Seq<
    serde_json::Value,
>
    decreases list.len(),
{
    if list.len() == 0 {
        Seq::empty()
    } else if some_int_field(list.last().1, key) == Some(wanted) {
        matching(list.drop_last(), key, wanted).push(list.last().1)
    } else {
        matching(list.drop_last(), key, wanted)
    }
}

proof fn lemma_entry_index(list: Seq<(i64, serde_json::Value)>, id: i64, i: int)
    requires
        0 <= i <= list.len(),
    ensures
        i <= entry_index(list, id, i) <= list.len(),
    decreases list.len() - i,
{
    if i < list.len() && list[i].0 != id {
        lemma_entry_index(list, id, i + 1);
    }
}

fn position(list: &Vec<(i64, serde_json::Value)>, id: i64) -> (r: Option<usize>)
    ensures
        r is Some <==> entry_index(list@, id, 0) < list@.len(),
        r is Some ==> r->0 == entry_index(list@, id, 0),
{
    proof {
        lemma_entry_index(list@, id, 0);
    }
    let mut i: usize = 0;
    while i < list.len()
        invariant
            i <= list@.len(),
            entry_index(list@, id, i as int) == entry_index(list@, id, 0),
        decreases list@.len() - i,
    {
        if list[i].0 == id {
            return Some(i);
        }
        i = i + 1;
    }
    None
}

fn find_matching<'a>(list: &'a Vec<(i64, serde_json::Value)>, key: &str, wanted: i64) -> (r: Vec<
    &'a serde_json::Value,
>)
    ensures
        r@.len() == matching(list@, key@, wanted).len(),
        forall|k: int| 0 <= k < r@.len() ==> *(#[trigger] r@[k]) == matching(list@, key@, wanted)[k],
{
    let mut out: Vec<&serde_json::Value> = Vec::new();
    let mut i: usize = 0;
    assert(list@.subrange(0, 0) =~= Seq::empty());
    while i < list.len()
        invariant
            i <= list@.len(),
            out@.len() == matching(list@.subrange(0, i as int), key@, wanted).len(),
            forall|k: int|
                0 <= k < out@.len() ==> *(#[trigger] out@[k]) == matching(
                    list@.subrange(0, i as int),
                    key@,
                    wanted,
                )[k],
        decreases list@.len() - i,
    {
        proof {
            assert(list@.subrange(0, i + 1).drop_last() =~= list@.subrange(0, i as int));
        }
        let found = match get_some_int(&list[i].1, key) {
            Some(n) => n == wanted,
            None => false,
        };
        if found {
            out.push(&list[i].1);
        }
        i = i + 1;
    }
    assert(list@.subrange(0, list@.len() as int) =~= list@);
    out
}

fn copy_of(list: &Vec<(i64, serde_json::Value)>) -> (r: Vec<(i64, serde_json::Value)>)
    ensures
        r@ == list@,
{
    let mut out: Vec<(i64, serde_json::Value)> = Vec::new();
    let mut i: usize = 0;
    while i < list.len()
        invariant
            i <= list@.len(),
            out@ == list@.subrange(0, i as int),
        decreases list@.len() - i,
    {
        out.push((list[i].0, list[i].1.clone()));
        assert(out@ =~= list@.subrange(0, i + 1));
        i = i + 1;
    }
    assert(list@.subrange(0, list@.len() as int) =~= list@);
    out
}

/// The store: for each kind of entity the documents filed by number.
#[derive(Debug)]
pub struct DataService {
    data_store: StrMap<Vec<(i64, serde_json::Value)>>,
}

impl DataService {
    /// The documents of the kind `kind`, in the order in which their
    /// numbers were first filed; none for a kind that is not known.
    pub closed spec fn entities(&self, kind: Seq<char>) -> Seq<(i64, serde_json::Value)> {
        if self.data_store@.contains_key(kind) {
            self.data_store@[kind]@
        } else {
            Seq::empty()
        }
    }

    /// Whether the store knows the kind `kind`.
    pub closed spec fn knows(&self, kind: Seq<char>) -> bool {
        self.data_store@.contains_key(kind)
    }

    /// The invariant of the store: rooms, items and monsters are known.
    pub closed spec fn wf(&self) -> bool {
        &&& self.data_store.wf()
        &&& self.data_store@.contains_key("rooms"@)
        &&& self.data_store@.contains_key("items"@)
        &&& self.data_store@.contains_key("monsters"@)
    }

    /// A store that knows rooms, items and monsters and holds none.
    pub fn new() -> (r: Self)
        ensures
            r.wf(),
            forall|kind: Seq<char>| (#[trigger] r.entities(kind)).len() == 0,
            forall|kind: Seq<char>| #[trigger]
                r.knows(kind) <==> kind == "rooms"@ || kind == "items"@ || kind == "monsters"@,
    {
        let mut data_store: StrMap<Vec<(i64, serde_json::Value)>> = StrMap::new();
        let _ = data_store.insert(String::from_str("rooms"), Vec::new());
        let _ = data_store.insert(String::from_str("items"), Vec::new());
        let _ = data_store.insert(String::from_str("monsters"), Vec::new());
        DataService { data_store }
    }

    /// Files `data` under `id` among the entities of the kind `kind`, in
    /// place of what was filed there. A kind that was not known is known
    /// from now on.
    pub fn add_entity(&mut self, entity_type: &str, entity_id: i64, entity_data: serde_json::Value)
        requires
            old(self).wf(),
        ensures
            final(self).wf(),
            final(self).entities(entity_type@) == put(
                old(self).entities(entity_type@),
                entity_id,
                entity_data,
            ),
            final(self).knows(entity_type@),
            forall|kind: Seq<char>|
                kind != entity_type@ ==> #[trigger] final(self).entities(kind) == old(
                    self,
                ).entities(kind) && final(self).knows(kind) == old(self).knows(kind),
    {
        let mut list = match self.data_store.remove(entity_type) {
            Some(list) => list,
            None => Vec::new(),
        };
        match position(&list, entity_id) {
            Some(i) => {
                list.push((entity_id, entity_data));
                let _ = list.swap_remove(i);
                assert(list@ =~= put(
                    old(self).entities(entity_type@),
                    entity_id,
                    entity_data,
                ));
            },
            None => {
                list.push((entity_id, entity_data));
            },
        }
        let _ = self.data_store.insert(String::from_str(entity_type), list);
    }

    /// The document filed under `id` among the entities of the kind
    /// `kind`, if there is one.
    pub fn get_entity(&self, entity_type: &str, entity_id: i64) -> (r: Option<&serde_json::Value>)
        requires
            self.wf(),
        ensures
            r is Some == filed(self.entities(entity_type@), entity_id) is Some,
            r is Some ==> *r->0 == filed(self.entities(entity_type@), entity_id)->0,
    {
        match self.data_store.get(entity_type) {
            Some(list) => match position(list, entity_id) {
                Some(i) => Some(&list[i].1),
                None => None,
            },
            None => None,
        }
    }

    /// Every document of the kind `kind` with its number.
    pub fn get_all(&self, entity_type: &str) -> (r: &Vec<(i64, serde_json::Value)>)
        requires
            self.wf(),
            self.knows(entity_type@),
        ensures
            r@ == self.entities(entity_type@),
    {
        match self.data_store.get(entity_type) {
            Some(list) => list,
            None => vstd::pervasive::unreached(),
        }
    }

    /// Takes away what is filed under `id` among the entities of the kind
    /// `kind`.
    pub fn remove_entity(&mut self, entity_type: &str, entity_id: i64)
        requires
            old(self).wf(),
        ensures
            final(self).wf(),
            final(self).entities(entity_type@) == taken(
                old(self).entities(entity_type@),
                entity_id,
            ),
            forall|kind: Seq<char>| #[trigger] final(self).knows(kind) == old(self).knows(kind),
            forall|kind: Seq<char>|
                kind != entity_type@ ==> #[trigger] final(self).entities(kind) == old(
                    self,
                ).entities(kind),
    {
        match self.data_store.get_mut(entity_type) {
            Some(list) => match position(list, entity_id) {
                Some(i) => {
                    let _ = list.remove(i);
                },
                None => {},
            },
            None => {},
        }
    }

    /// The documents of the kind `kind` whose member `key` is the whole
    /// number `wanted`, in order.
    pub fn find_by(&self, entity_type: &str, key: &str, wanted: i64) -> (r: Vec<&serde_json::Value>)
        requires
            self.wf(),
        ensures
            r@.len() == matching(self.entities(entity_type@), key@, wanted).len(),
            forall|k: int|
                0 <= k < r@.len() ==> *(#[trigger] r@[k]) == matching(
                    self.entities(entity_type@),
                    key@,
                    wanted,
                )[k],
    {
        match self.data_store.get(entity_type) {
            Some(list) => find_matching(list, key, wanted),
            None => Vec::new(),
        }
    }

    /// Files the document of the room `room_id`.
    pub fn add_room(&mut self, room_id: i64, room_data: serde_json::Value)
        requires
            old(self).wf(),
        ensures
            final(self).wf(),
            final(self).entities("rooms"@) == put(old(self).entities("rooms"@), room_id, room_data),
            forall|kind: Seq<char>|
                kind != "rooms"@ ==> #[trigger] final(self).entities(kind) == old(self).entities(
                    kind,
                ),
    {
        self.add_entity("rooms", room_id, room_data);
    }

    /// The document of the room `room_id`, if there is one.
    pub fn get_room(&self, room_id: i64) -> (r: Option<&serde_json::Value>)
        requires
            self.wf(),
        ensures
            r is Some == filed(self.entities("rooms"@), room_id) is Some,
            r is Some ==> *r->0 == filed(self.entities("rooms"@), room_id)->0,
    {
        self.get_entity("rooms", room_id)
    }

    /// The documents of all rooms with their numbers.
    pub fn get_all_rooms(&self) -> (r: &Vec<(i64, serde_json::Value)>)
        requires
            self.wf(),
        ensures
            r@ == self.entities("rooms"@),
    {
        self.get_all("rooms")
    }

    /// Takes the document of the room `room_id` away.
    pub fn remove_room(&mut self, room_id: i64)
        requires
            old(self).wf(),
        ensures
            final(self).wf(),
            final(self).entities("rooms"@) == taken(old(self).entities("rooms"@), room_id),
            forall|kind: Seq<char>|
                kind != "rooms"@ ==> #[trigger] final(self).entities(kind) == old(self).entities(
                    kind,
                ),
    {
        self.remove_entity("rooms", room_id);
    }

    /// Files the document of the item `item_id`.
    pub fn add_item(&mut self, item_id: i64, item_data: serde_json::Value)
        requires
            old(self).wf(),
        ensures
            final(self).wf(),
            final(self).entities("items"@) == put(old(self).entities("items"@), item_id, item_data),
            forall|kind: Seq<char>|
                kind != "items"@ ==> #[trigger] final(self).entities(kind) == old(self).entities(
                    kind,
                ),
    {
        self.add_entity("items", item_id, item_data);
    }

    /// The document of the item `item_id`, if there is one.
    pub fn get_item(&self, item_id: i64) -> (r: Option<&serde_json::Value>)
        requires
            self.wf(),
        ensures
            r is Some == filed(self.entities("items"@), item_id) is Some,
            r is Some ==> *r->0 == filed(self.entities("items"@), item_id)->0,
    {
        self.get_entity("items", item_id)
    }

    /// The documents of all items with their numbers.
    pub fn get_all_items(&self) -> (r: &Vec<(i64, serde_json::Value)>)
        requires
            self.wf(),
        ensures
            r@ == self.entities("items"@),
    {
        self.get_all("items")
    }

    /// The items whose `location` is the whole number `location`.
    pub fn find_items_by_location(&self, location: i64) -> (r: Vec<&serde_json::Value>)
        requires
            self.wf(),
        ensures
            r@.len() == matching(self.entities("items"@), "location"@, location).len(),
            forall|k: int|
                0 <= k < r@.len() ==> *(#[trigger] r@[k]) == matching(
                    self.entities("items"@),
                    "location"@,
                    location,
                )[k],
    {
        self.find_by("items", "location", location)
    }

    /// Takes the document of the item `item_id` away.
    pub fn remove_item(&mut self, item_id: i64)
        requires
            old(self).wf(),
        ensures
            final(self).wf(),
            final(self).entities("items"@) == taken(old(self).entities("items"@), item_id),
            forall|kind: Seq<char>|
                kind != "items"@ ==> #[trigger] final(self).entities(kind) == old(self).entities(
                    kind,
                ),
    {
        self.remove_entity("items", item_id);
    }

    /// Files the document of the monster `monster_id`.
    pub fn add_monster(&mut self, monster_id: i64, monster_data: serde_json::Value)
        requires
            old(self).wf(),
        ensures
            final(self).wf(),
            final(self).entities("monsters"@) == put(
                old(self).entities("monsters"@),
                monster_id,
                monster_data,
            ),
            forall|kind: Seq<char>|
                kind != "monsters"@ ==> #[trigger] final(self).entities(kind) == old(self).entities(
                    kind,
                ),
    {
        self.add_entity("monsters", monster_id, monster_data);
    }

    /// The document of the monster `monster_id`, if there is one.
    pub fn get_monster(&self, monster_id: i64) -> (r: Option<&serde_json::Value>)
        requires
            self.wf(),
        ensures
            r is Some == filed(self.entities("monsters"@), monster_id) is Some,
            r is Some ==> *r->0 == filed(self.entities("monsters"@), monster_id)->0,
    {
        self.get_entity("monsters", monster_id)
    }

    /// The documents of all monsters with their numbers.
    pub fn get_all_monsters(&self) -> (r: &Vec<(i64, serde_json::Value)>)
        requires
            self.wf(),
        ensures
            r@ == self.entities("monsters"@),
    {
        self.get_all("monsters")
    }

    /// The monsters whose `room_id` is the whole number `room_id`.
    pub fn find_monsters_by_room(&self, room_id: i64) -> (r: Vec<&serde_json::Value>)
        requires
            self.wf(),
        ensures
            r@.len() == matching(self.entities("monsters"@), "room_id"@, room_id).len(),
            forall|k: int|
                0 <= k < r@.len() ==> *(#[trigger] r@[k]) == matching(
                    self.entities("monsters"@),
                    "room_id"@,
                    room_id,
                )[k],
    {
        self.find_by("monsters", "room_id", room_id)
    }

    /// Takes the document of the monster `monster_id` away.
    pub fn remove_monster(&mut self, monster_id: i64)
        requires
            old(self).wf(),
        ensures
            final(self).wf(),
            final(self).entities("monsters"@) == taken(old(self).entities("monsters"@), monster_id),
            forall|kind: Seq<char>|
                kind != "monsters"@ ==> #[trigger] final(self).entities(kind) == old(self).entities(
                    kind,
                ),
    {
        self.remove_entity("monsters", monster_id);
    }

    /// Empties every kind; the kinds stay known.
    pub fn clear_all(&mut self)
        requires
            old(self).wf(),
        ensures
            final(self).wf(),
            forall|kind: Seq<char>| (#[trigger] final(self).entities(kind)).len() == 0,
            forall|kind: Seq<char>| #[trigger] final(self).knows(kind) == old(self).knows(kind),
    {
        let kinds = self.data_store.key_list();
        let ghost names = self.data_store.keys();
        proof {
            self.data_store.lemma_entries();
        }
        let mut i: usize = 0;
        while i < kinds.len()
            invariant
                i <= kinds@.len(),
                crate::text::texts(kinds@) == names,
                self.data_store.wf(),
                self.data_store.keys() == names,
                self.data_store@.dom() == old(self).data_store@.dom(),
                forall|k: int|
                    0 <= k < i ==> (#[trigger] self.data_store@[names[k]])@.len() == 0,
            decreases kinds@.len() - i,
        {
            assert(names[i as int] == kinds@[i as int]@);
            proof {
                self.data_store.lemma_entries();
            }
            match self.data_store.get_mut(kinds[i].as_str()) {
                Some(list) => {
                    list.clear();
                },
                None => {},
            }
            proof {
                assert(self.data_store@.dom() =~= old(self).data_store@.dom());
                assert forall|k: int| 0 <= k < i + 1 implies (#[trigger] self.data_store@[names[k]])@.len()
                    == 0 by {
                    if k < i {
                        self.data_store.lemma_entries();
                        assert(names[k] != names[i as int]);
                    }
                }
            }
            i = i + 1;
        }
        proof {
            self.data_store.lemma_entries();
            assert forall|kind: Seq<char>| (#[trigger] self.entities(kind)).len() == 0 by {
                if self.data_store@.contains_key(kind) {
                    let k = names.index_of(kind);
                    assert(names[k] == kind);
                }
            }
        }
    }

    /// Takes rooms, items and monsters over from `data`, each where `data`
    /// has that kind.
    pub fn import_data(&mut self, data: StrMap<Vec<(i64, serde_json::Value)>>)
        requires
            old(self).wf(),
            data.wf(),
        ensures
            final(self).wf(),
            forall|kind: Seq<char>| #[trigger]
                final(self).entities(kind) == if (kind == "rooms"@ || kind == "items"@ || kind
                    == "monsters"@) && data@.contains_key(kind) {
                    data@[kind]@
                } else {
                    old(self).entities(kind)
                },
            forall|kind: Seq<char>| #[trigger] final(self).knows(kind) == old(self).knows(kind),
    {
        let mut data = data;
        proof {
            reveal_strlit("rooms");
            reveal_strlit("items");
            reveal_strlit("monsters");
            assert("rooms"@ != "items"@) by {
                assert("rooms"@[0] != "items"@[0]);
            }
            assert("rooms"@ != "monsters"@) by {
                assert("rooms"@.len() != "monsters"@.len());
            }
            assert("items"@ != "monsters"@) by {
                assert("items"@.len() != "monsters"@.len());
            }
        }
        match data.remove("rooms") {
            Some(rooms) => {
                let _ = self.data_store.insert(String::from_str("rooms"), rooms);
            },
            None => {},
        }
        match data.remove("items") {
            Some(items) => {
                let _ = self.data_store.insert(String::from_str("items"), items);
            },
            None => {},
        }
        match data.remove("monsters") {
            Some(monsters) => {
                let _ = self.data_store.insert(String::from_str("monsters"), monsters);
            },
            None => {},
        }
        assert(self.data_store@.dom() =~= old(self).data_store@.dom());
    }

    /// A copy of rooms, items and monsters.
    pub fn export_data(&self) -> (r: StrMap<Vec<(i64, serde_json::Value)>>)
        requires
            self.wf(),
        ensures
            r.wf(),
            r@.dom() == set!["rooms"@, "items"@, "monsters"@],
            r@["rooms"@]@ == self.entities("rooms"@),
            r@["items"@]@ == self.entities("items"@),
            r@["monsters"@]@ == self.entities("monsters"@),
    {
        let mut result: StrMap<Vec<(i64, serde_json::Value)>> = StrMap::new();
        proof {
            reveal_strlit("rooms");
            reveal_strlit("items");
            reveal_strlit("monsters");
            assert("rooms"@ != "items"@) by {
                assert("rooms"@[0] != "items"@[0]);
            }
            assert("rooms"@ != "monsters"@) by {
                assert("rooms"@.len() != "monsters"@.len());
            }
            assert("items"@ != "monsters"@) by {
                assert("items"@.len() != "monsters"@.len());
            }
        }
        let _ = result.insert(String::from_str("rooms"), copy_of(self.get_all("rooms")));
        let _ = result.insert(String::from_str("items"), copy_of(self.get_all("items")));
        let _ = result.insert(String::from_str("monsters"), copy_of(self.get_all("monsters")));
        assert(result@.dom() =~= set!["rooms"@, "items"@, "monsters"@]);
        result
    }
}

impl Service for DataService {
    open spec fn brought_up(
        &self,
        config: Map<Seq<char>, serde_json::Value>,
        next: Self,
        r: Result<(), String>,
    ) -> bool {
        next == *self && r is Ok
    }

    open spec fn shut_down(&self, next: Self, r: Result<(), String>) -> bool {
        r is Ok && forall|kind: Seq<char>| !(#[trigger] next.knows(kind))
    }

    fn name(&self) -> (r: &'static str)
        ensures
            r@ == "DataService"@,
    {
        "DataService"
    }

    fn initialize(&mut self, config: &StrMap<serde_json::Value>) -> (r: Result<(), String>) {
        Ok(())
    }

    fn shutdown(&mut self) -> (r: Result<(), String>) {
        self.data_store = StrMap::new();
        Ok(())
    }
}

} // verus!
