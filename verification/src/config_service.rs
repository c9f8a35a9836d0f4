//! The settings of the engine and of its plugins, read and written by
//! dotted keys such as `engine.name`.

use vstd::prelude::*;
use crate::json::{
    empty_object, entries_of, json_entries, json_member, member, with_member,
};
use crate::strmap::StrMap;
use crate::text::{chars_of, slice_string, texts};

verus! {

/// The parts of `s` from position `i` on that `sep` separates, where `cur`
/// holds the characters of the part that has begun.
pub open spec fn parts_from(s: Seq<char>, sep: char, i: int, cur: Seq<char>) -> Seq<Seq<char>>
    decreases s.len() - i,
{
    if i < 0 || i >= s.len() {
        seq![cur]
    } else if s[i] == sep {
        seq![cur] + parts_from(s, sep, i + 1, Seq::empty())
    } else {
        parts_from(s, sep, i + 1, cur.push(s[i]))
    }
}

/// The parts of `s` that `sep` separates: one more than `sep` occurs, and
/// empty where two of them meet or one stands at an end.
pub open spec fn split_on(s: Seq<char>, sep: char) -> Seq<Seq<char>> {
    parts_from(s, sep, 0, Seq::empty())
}

proof fn lemma_parts_not_empty(s: Seq<char>, sep: char, i: int, cur: Seq<char>)
    ensures
        parts_from(s, sep, i, cur).len() >= 1,
    decreases s.len() - i,
{
    if 0 <= i < s.len() {
        if s[i] == sep {
            lemma_parts_not_empty(s, sep, i + 1, Seq::empty());
        } else {
            lemma_parts_not_empty(s, sep, i + 1, cur.push(s[i]));
        }
    }
}

/// The parts of `key` that dots separate.
pub fn split_dots(key: &str) -> (out: Vec<String>)
    ensures
        texts(out@) == split_on(key@, '.'),
        out@.len() >= 1,
{
    let v = chars_of(key);
    let mut out: Vec<String> = Vec::new();
    let mut start: usize = 0;
    let mut i: usize = 0;
    assert(texts(out@) =~= Seq::<Seq<char>>::empty());
    assert(key@.subrange(0, 0) =~= Seq::<char>::empty());
    while i < v.len()
        invariant
            v@ == key@,
            start <= i <= v.len(),
            split_on(key@, '.') == texts(out@) + parts_from(
                key@,
                '.',
                i as int,
                key@.subrange(start as int, i as int),
            ),
        decreases v.len() - i,
    {
        let ghost cur = key@.subrange(start as int, i as int);
        if v[i] == '.' {
            let ghost was = texts(out@);
            out.push(slice_string(key, start, i));
            assert(texts(out@) =~= was + seq![cur]);
            start = i + 1;
            assert(key@.subrange(start as int, start as int) =~= Seq::<char>::empty());
            assert(was + (seq![cur] + parts_from(key@, '.', i + 1, Seq::empty())) =~= (was
                + seq![cur]) + parts_from(key@, '.', i + 1, Seq::empty()));
        } else {
            assert(key@.subrange(start as int, i + 1) =~= cur.push(key@[i as int]));
        }
        i = i + 1;
    }
    let ghost was = texts(out@);
    out.push(slice_string(key, start, i));
    assert(texts(out@) =~= was + seq![key@.subrange(start as int, i as int)]);
    proof {
        lemma_parts_not_empty(key@, '.', 0, Seq::empty());
    }
    out
}

/// The value that the path `parts` leads to from `root`, from position `i`
/// on: each part names a member of the object that the part before it led
/// to.
pub open spec fn reached(root: serde_json::Value, parts: Seq<Seq<char>>, i: int) -> Option<
    serde_json::Value,
>
    decreases parts.len() - i,
{
    if i < 0 || i >= parts.len() {
        Some(root)
    } else {
        match json_member(root, parts[i]) {
            Some(m) => reached(m, parts, i + 1),
            None => None,
        }
    }
}

/// The member `key` of `root` if `root` is an object, and nothing if it
/// is anything else or nothing at all.
pub open spec fn object_member(root: Option<serde_json::Value>, key: Seq<char>) -> Option<
    serde_json::Value,
> {
    match root {
        Some(v) => if json_entries(v) is Some {
            json_member(v, key)
        } else {
            None
        },
        None => None,
    }
}

/// Whether `r` is `root` with `value` stored at the end of the path
/// `parts`, from position `i` on. `r` is an object. Its members are those
/// of `root`, or none if `root` is no object, but for the member that the
/// path names: at the end of the path that is `value`, and before the end
/// it is what was there with `value` stored along the rest of the path. So
/// what stands in the way and is no object is replaced by one.
pub open spec fn stored(
    root: Option<serde_json::Value>,
    parts: Seq<Seq<char>>,
    i: int,
    value: serde_json::Value,
    r: serde_json::Value,
) -> bool
    decreases parts.len() - i,
{
    &&& json_entries(r) is Some
    &&& forall|other: Seq<char>|
        other != parts[i] ==> #[trigger] json_member(r, other) == object_member(root, other)
    &&& if i < 0 || i >= parts.len() - 1 {
        json_member(r, parts[i]) == Some(value)
    } else {
        json_member(r, parts[i]) is Some && stored(
            object_member(root, parts[i]),
            parts,
            i + 1,
            value,
            json_member(r, parts[i])->0,
        )
    }
}

/// The value under the dotted key `key` in `root`, if the key leads
/// somewhere.
pub fn get_dotted(root: &serde_json::Value, key: &str) -> (r: Option<serde_json::Value>)
    ensures
        r == reached(*root, split_on(key@, '.'), 0),
{
    let parts = split_dots(key);
    let ghost path = texts(parts@);
    let mut cur = root;
    let mut i: usize = 0;
    while i < parts.len()
        invariant
            i <= parts@.len(),
            path == texts(parts@),
            path == split_on(key@, '.'),
            reached(*cur, path, i as int) == reached(*root, path, 0),
        decreases parts@.len() - i,
    {
        assert(path[i as int] == parts@[i as int]@);
        match member(cur, parts[i].as_str()) {
            Some(m) => {
                cur = m;
            },
            None => {
                return None;
            },
        }
        i = i + 1;
    }
    Some(cur.clone())
}

fn store_at(root: Option<serde_json::Value>, parts: &Vec<String>, i: usize, value: serde_json::Value) -> (r:
    serde_json::Value)
    requires
        i < parts@.len(),
    ensures
        stored(root, texts(parts@), i as int, value, r),
        reached(r, texts(parts@), i as int) == Some(value),
    decreases parts@.len() - i,
{
    let ghost path = texts(parts@);
    assert(path[i as int] == parts@[i as int]@);
    // what is no object gives way to an object without members
    let base = match root {
        Some(v) => {
            if entries_of(&v).is_some() {
                v
            } else {
                empty_object()
            }
        },
        None => empty_object(),
    };
    assert(forall|other: Seq<char>| #[trigger]
        json_member(base, other) == object_member(root, other));
    if i >= parts.len() - 1 {
        let r = with_member(base, parts[i].as_str(), value);
        assert(reached(value, path, i + 1) == Some(value));
        r
    } else {
        let child = match member(&base, parts[i].as_str()) {
            Some(c) => Some(c.clone()),
            None => None,
        };
        let below = store_at(child, parts, i + 1, value);
        with_member(base, parts[i].as_str(), below)
    }
}

/// `root` with `value` stored under the dotted key `key`. What stands in
/// the way and is no object is replaced by one.
pub fn set_dotted(root: serde_json::Value, key: &str, value: serde_json::Value) -> (r:
    serde_json::Value)
    ensures
        stored(Some(root), split_on(key@, '.'), 0, value, r),
        reached(r, split_on(key@, '.'), 0) == Some(value),
{
    let parts = split_dots(key);
    store_at(Some(root), &parts, 0, value)
}

/// The settings of the engine and of its plugins.
#[derive(Debug)]
pub struct ConfigService {
    /// The directory in which the settings are kept.
    pub config_dir: String,
    /// The settings of the engine: a JSON object.
    pub config: serde_json::Value,
    /// The settings of each plugin: a JSON object each.
    pub plugin_configs: StrMap<serde_json::Value>,
}

impl ConfigService {
    /// The invariant of the map the service is made of.
    pub open spec fn wf(&self) -> bool {
        self.plugin_configs.wf()
    }

    /// A service without settings, for the directory `config_dir`.
    pub fn new(config_dir: &str) -> (r: Self)
        ensures
            r.wf(),
            r.config_dir@ == config_dir@,
            forall|key: Seq<char>| #[trigger] json_member(r.config, key) is None,
            r.plugin_configs@ == Map::<Seq<char>, serde_json::Value>::empty(),
    {
        ConfigService {
            config_dir: String::from_str(config_dir),
            config: empty_object(),
            plugin_configs: StrMap::new(),
        }
    }

    /// Takes `document` as the settings of the engine if it is an object,
    /// and an object without members if it is anything else.
    pub fn adopt(&mut self, document: serde_json::Value)
        ensures
            final(self).config_dir == old(self).config_dir,
            final(self).plugin_configs == old(self).plugin_configs,
            json_entries(document) is Some ==> final(self).config == document,
            json_entries(document) is None ==> forall|key: Seq<char>| #[trigger]
                json_member(final(self).config, key) is None,
    {
        if entries_of(&document).is_some() {
            self.config = document;
        } else {
            self.config = empty_object();
        }
    }

    /// Takes `document` as the settings of the plugin `plugin` if it is an
    /// object; says whether it did.
    pub fn adopt_plugin(&mut self, plugin: &str, document: serde_json::Value) -> (r: bool)
        requires
            old(self).wf(),
        ensures
            final(self).wf(),
            final(self).config_dir == old(self).config_dir,
            final(self).config == old(self).config,
            r == json_entries(document) is Some,
            r ==> final(self).plugin_configs@ == old(self).plugin_configs@.insert(
                plugin@,
                document,
            ),
            !r ==> final(self).plugin_configs == old(self).plugin_configs,
    {
        if entries_of(&document).is_some() {
            let _ = self.plugin_configs.insert(String::from_str(plugin), document);
            true
        } else {
            false
        }
    }

    /// The setting of the engine under the dotted key `key`, or `default`
    /// if there is none.
    pub fn get(&self, key: &str, default: serde_json::Value) -> (r: serde_json::Value)
        ensures
            r == match reached(self.config, split_on(key@, '.'), 0) {
                Some(v) => v,
                None => default,
            },
    {
        match get_dotted(&self.config, key) {
            Some(v) => v,
            None => default,
        }
    }

    /// Stores `value` as the setting of the engine under the dotted key
    /// `key`.
    pub fn set(&mut self, key: &str, value: serde_json::Value)
        ensures
            stored(Some(old(self).config), split_on(key@, '.'), 0, value, final(self).config),
            reached(final(self).config, split_on(key@, '.'), 0) == Some(value),
            final(self).config_dir == old(self).config_dir,
            final(self).plugin_configs == old(self).plugin_configs,
    {
        let config = self.config.clone();
        self.config = set_dotted(config, key, value);
    }

    /// The setting of the plugin `plugin` under the dotted key `key`, or
    /// `default` if there is none.
    pub fn get_plugin(&self, plugin: &str, key: &str, default: serde_json::Value) -> (r:
        serde_json::Value)
        requires
            self.wf(),
        ensures
            r == if self.plugin_configs@.contains_key(plugin@) {
                match reached(self.plugin_configs@[plugin@], split_on(key@, '.'), 0) {
                    Some(v) => v,
                    None => default,
                }
            } else {
                default
            },
    {
        match self.plugin_configs.get(plugin) {
            Some(m) => match get_dotted(m, key) {
                Some(v) => v,
                None => default,
            },
            None => default,
        }
    }

    /// Stores `value` as the setting of the plugin `plugin` under the
    /// dotted key `key`.
    pub fn set_plugin(&mut self, plugin: &str, key: &str, value: serde_json::Value)
        requires
            old(self).wf(),
        ensures
            final(self).wf(),
            final(self).config == old(self).config,
            final(self).config_dir == old(self).config_dir,
            final(self).plugin_configs@ == old(self).plugin_configs@.insert(
                plugin@,
                final(self).plugin_configs@[plugin@],
            ),
            stored(
                if old(self).plugin_configs@.contains_key(plugin@) {
                    Some(old(self).plugin_configs@[plugin@])
                } else {
                    None
                },
                split_on(key@, '.'),
                0,
                value,
                final(self).plugin_configs@[plugin@],
            ),
            reached(final(self).plugin_configs@[plugin@], split_on(key@, '.'), 0) == Some(value),
    {
        let parts = split_dots(key);
        let entry = self.plugin_configs.remove(plugin);
        let updated = store_at(entry, &parts, 0, value);
        let _ = self.plugin_configs.insert(String::from_str(plugin), updated);
    }

    /// The directory in which the settings are kept.
    pub fn config_dir(&self) -> (r: &str)
        ensures
            r@ == self.config_dir@,
    {
        self.config_dir.as_str()
    }
}

} // verus!
