//! What the files of adventures and saved games mean. The files themselves
//! are read by whoever uses the library; this module decides what their
//! content comes to.

use vstd::prelude::*;
use crate::json::{
    entries_of, json_document, json_entries, json_error_text, parse_document,
};
use crate::text::concat2;

verus! {

/// What came of reading a file.
#[derive(Debug)]
pub enum ReadOutcome {
    /// The file was read; this is its text.
    Content(String),
    /// There is no such file.
    NotFound,
    /// The file could not be read; this is why.
    Failed(String),
}

/// The data of a JSON file that was read as `outcome`: the document if the
/// file holds a JSON object; no data if there is no file or if it holds
/// anything else; an error only if the file could not be read.
pub open spec fn loaded(outcome: ReadOutcome, r: Result<Option<serde_json::Value>, String>) -> bool {
    match outcome {
        ReadOutcome::Content(text) => match json_document(text@) {
            Some(v) => if json_entries(v) is Some {
                r == Ok::<Option<serde_json::Value>, String>(Some(v))
            } else {
                r == Ok::<Option<serde_json::Value>, String>(None)
            },
            None => r == Ok::<Option<serde_json::Value>, String>(None),
        },
        ReadOutcome::NotFound => r == Ok::<Option<serde_json::Value>, String>(None),
        ReadOutcome::Failed(why) => r == Err::<Option<serde_json::Value>, String>(why),
    }
}

/// The data of a JSON file that was read as `outcome`. A missing file and
/// a file that holds no JSON object are no data; that a file could not be
/// read is an error.
pub fn load_json(outcome: ReadOutcome) -> (r: Result<Option<serde_json::Value>, String>)
    ensures
        loaded(outcome, r),
{
    match outcome {
        ReadOutcome::Content(text) => match parse_document(text.as_str()) {
            Ok(v) => {
                if entries_of(&v).is_some() {
                    Ok(Some(v))
                } else {
                    Ok(None)
                }
            },
            Err(_) => Ok(None),
        },
        ReadOutcome::NotFound => Ok(None),
        ReadOutcome::Failed(why) => Err(why),
    }
}

/// The position of the last dot of `name` below `n`, or -1 if there is
/// none.
pub open spec fn last_dot(name: Seq<char>, n: int) -> int
    decreases n,
{
    if n <= 0 || n > name.len() {
        -1
    } else if name[n - 1] == '.' {
        n - 1
    } else {
        last_dot(name, n - 1)
    }
}

/// The name under which the file called `file_name` is listed among
/// adventures and saved games: what stands before its last dot, if `json`
/// follows that dot and the dot is not the first character. Files of any
/// other kind are not listed.
pub open spec fn listing(file_name: Seq<char>) -> Option<Seq<char>> {
    let k = last_dot(file_name, file_name.len() as int);
    if k > 0 && file_name.subrange(k + 1, file_name.len() as int) == "json"@ {
        Some(file_name.subrange(0, k))
    } else {
        None
    }
}

proof fn lemma_last_dot(name: Seq<char>, n: int)
    requires
        0 <= n <= name.len(),
    ensures
        -1 <= last_dot(name, n) < n,
    decreases n,
{
    if n > 0 && name[n - 1] != '.' {
        lemma_last_dot(name, n - 1);
    }
}

/// The name under which the file called `file_name` is listed, if it is.
pub fn listed_name(file_name: &str) -> (r: Option<String>)
    ensures
        r is Some == listing(file_name@) is Some,
        r is Some ==> r->0@ == listing(file_name@)->0,
{
    let v = crate::text::chars_of(file_name);
    let mut n: usize = v.len();
    proof {
        lemma_last_dot(file_name@, v.len() as int);
    }
    while n > 0 && v[n - 1] != '.'
        invariant
            v@ == file_name@,
            n <= v.len(),
            last_dot(file_name@, n as int) == last_dot(file_name@, file_name@.len() as int),
        decreases n,
    {
        n = n - 1;
    }
    if n <= 1 {
        return None;
    }
    let k = n - 1;
    let ext = crate::text::slice_string(file_name, k + 1, v.len());
    if crate::text::str_equal(ext.as_str(), "json") {
        Some(crate::text::slice_string(file_name, 0, k))
    } else {
        None
    }
}

/// The name of the file in which the adventure or the saved game `name` is
/// kept.
pub fn file_name_of(name: &str) -> (r: String)
    ensures
        r@ == name@ + ".json"@,
{
    concat2(name, ".json")
}

/// Why the text of an adventure file is no adventure.
#[derive(Debug)]
pub enum AdventureDataError {
    /// The text is not JSON; this is what the parser said.
    NotJson(String),
    /// The text is JSON, but no object.
    NotAnObject,
}

impl AdventureDataError {
    /// The error in words.
    pub fn message(&self) -> (r: String)
        ensures
            match *self {
                AdventureDataError::NotJson(why) => r@ == "parse json: "@ + why@,
                AdventureDataError::NotAnObject => r@
                    == "Adventure JSON must be an object at the top level"@,
            },
    {
        match self {
            AdventureDataError::NotJson(why) => concat2("parse json: ", why.as_str()),
            AdventureDataError::NotAnObject => String::from_str(
                "Adventure JSON must be an object at the top level",
            ),
        }
    }
}

/// The adventure that the text `content` of a file holds: the document, if
/// the text is the JSON of an object.
pub fn read_adventure_data(content: &str) -> (r: Result<serde_json::Value, AdventureDataError>)
    ensures
        match json_document(content@) {
            Some(v) => if json_entries(v) is Some {
                r == Ok::<serde_json::Value, AdventureDataError>(v)
            } else {
                r is Err && r->Err_0 is NotAnObject
            },
            None => r is Err && r->Err_0 is NotJson,
        },
{
    match parse_document(content) {
        Ok(data) => {
            if entries_of(&data).is_some() {
                Ok(data)
            } else {
                Err(AdventureDataError::NotAnObject)
            }
        },
        Err(e) => Err(AdventureDataError::NotJson(json_error_text(&e))),
    }
}

} // verus!
