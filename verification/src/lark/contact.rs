//! Who is logged in to Lark.
use vstd::prelude::*;
use crate::json;
use crate::json::Json;
use crate::text;

verus! {

// ---------------------------------------------------------------------------
// Searching an answer
// ---------------------------------------------------------------------------

/// The first text under the name, anywhere in the value: in an object itself before in its
/// members, and those in their order.
pub open spec fn deep_find(t: json::Tree, key: Seq<char>) -> Option<Seq<char>>
    decreases t, 0int,
{
    match t {
        json::Tree::Object(m) => match json::member(m, key) {
            Some(json::Tree::Text(s)) => Some(s),
            _ => find_in_members(m, 0, key),
        },
        json::Tree::Array(a) => find_in_items(a, 0, key),
        _ => None,
    }
}

/// The first text under the name in the members from the `i`th on.
pub open spec fn find_in_members(m: Seq<(Seq<char>, json::Tree)>, i: int, key: Seq<char>) -> Option<
    Seq<char>,
>
    decreases m, m.len() - i,
{
    if i < 0 || i >= m.len() {
        None
    } else {
        proof {
            assert(decreases_to!(m => m[i]));
            assert(decreases_to!(m[i] => m[i].1));
        }
        match deep_find(m[i].1, key) {
            Some(s) => Some(s),
            None => find_in_members(m, i + 1, key),
        }
    }
}

/// The first text under the name in the items from the `i`th on.
pub open spec fn find_in_items(a: Seq<json::Tree>, i: int, key: Seq<char>) -> Option<Seq<char>>
    decreases a, a.len() - i,
{
    if i < 0 || i >= a.len() {
        None
    } else {
        proof {
            assert(decreases_to!(a => a[i]));
        }
        match deep_find(a[i], key) {
            Some(s) => Some(s),
            None => find_in_items(a, i + 1, key),
        }
    }
}

/// The first text under the name, anywhere in the value.
pub fn deep_find_string(value: &Json, key: &str) -> (r: Option<String>)
    ensures
        text::opt_text(r) == deep_find(value@, key@),
    decreases value,
{
    proof {
        json::lemma_view_parts(value);
    }
    match value {
        Json::Object(m) => {
            match value.get(key) {
                Some(Json::Text(s)) => {
                    return Some(s.clone());
                },
                Some(j) => {
                    proof {
                        json::lemma_view_parts(j);
                    }
                },
                None => {},
            }
            let ghost all = json::member_trees(m@);
            assert(deep_find(value@, key@) == find_in_members(all, 0, key@));
            let mut i: usize = 0;
            while i < m.len()
                invariant
                    i <= m@.len(),
                    *value == Json::Object(*m),
                    all == json::member_trees(m@),
                    deep_find(value@, key@) == find_in_members(all, i as int, key@),
                decreases m@.len() - i,
            {
                assert(all[i as int] == (m@[i as int].0@, m@[i as int].1.view()));
                assert(decreases_to!(*value => value->Object_0));
                assert(decreases_to!(*m => m@));
                assert(decreases_to!(m@ => m@[i as int]));
                assert(decreases_to!(m@[i as int] => m@[i as int].1));
                match deep_find_string(&m[i].1, key) {
                    Some(s) => {
                        return Some(s);
                    },
                    None => {},
                }
                i += 1;
            }
            None
        },
        Json::Array(a) => {
            let ghost all = json::trees(a@);
            assert(deep_find(value@, key@) == find_in_items(all, 0, key@));
            let mut i: usize = 0;
            while i < a.len()
                invariant
                    i <= a@.len(),
                    *value == Json::Array(*a),
                    all == json::trees(a@),
                    deep_find(value@, key@) == find_in_items(all, i as int, key@),
                decreases a@.len() - i,
            {
                assert(all[i as int] == a@[i as int].view());
                assert(decreases_to!(*value => value->Array_0));
                assert(decreases_to!(*a => a@));
                assert(decreases_to!(a@ => a@[i as int]));
                match deep_find_string(&a[i], key) {
                    Some(s) => {
                        return Some(s);
                    },
                    None => {},
                }
                i += 1;
            }
            None
        },
        _ => None,
    }
}

/// The member of a member.
pub open spec fn nested(t: json::Tree, outer: Seq<char>, inner: Seq<char>) -> Option<json::Tree> {
    match t.get(outer) {
        Some(o) => o.get(inner),
        None => None,
    }
}

/// The value at the first of the places that answers use.
pub open spec fn at_known_place(raw: json::Tree) -> Option<json::Tree> {
    let in_user = match nested(raw, "data"@, "user"@) {
        Some(u) => u.get("open_id"@),
        None => None,
    };
    if in_user is Some {
        in_user
    } else if nested(raw, "data"@, "open_id"@) is Some {
        nested(raw, "data"@, "open_id"@)
    } else {
        raw.get("open_id"@)
    }
}

/// The user's id in an answer: at one of the places that answers use, or else anywhere.
pub open spec fn open_id_in(raw: json::Tree) -> Option<Seq<char>> {
    match at_known_place(raw) {
        Some(json::Tree::Text(s)) => Some(s),
        _ => deep_find(raw, "open_id"@),
    }
}

fn get_nested<'a>(raw: &'a Json, outer: &str, inner: &str) -> (r: Option<&'a Json>)
    ensures
        crate::records::opt_view(r) == nested(raw@, outer@, inner@),
{
    match raw.get(outer) {
        Some(o) => o.get(inner),
        None => None,
    }
}

/// The user's id in an answer.
pub fn extract_open_id(raw: &Json) -> (r: Option<String>)
    ensures
        text::opt_text(r) == open_id_in(raw@),
{
    let in_user = match get_nested(raw, "data", "user") {
        Some(u) => u.get("open_id"),
        None => None,
    };
    let place = match in_user {
        Some(j) => Some(j),
        None => match get_nested(raw, "data", "open_id") {
            Some(j) => Some(j),
            None => raw.get("open_id"),
        },
    };
    match place {
        Some(j) => {
            match j.as_str() {
                Some(s) => {
                    return Some(s.to_string());
                },
                None => {},
            }
        },
        None => {},
    }
    deep_find_string(raw, "open_id")
}

// ---------------------------------------------------------------------------
// Remembering the answer
// ---------------------------------------------------------------------------

/// The id of the user who is logged in, once it is known.
pub struct SelfId {
    pub known: Option<String>,
}

impl SelfId {
    /// Nothing is known yet.
    pub fn new() -> (r: SelfId)
        ensures
            r.known is None,
    {
        SelfId { known: None }
    }

    /// The id, where it is known.
    pub fn get(&self) -> (r: Option<String>)
        ensures
            r == self.known,
    {
        match &self.known {
            Some(s) => Some(s.clone()),
            None => None,
        }
    }

    /// Takes the id out of an answer and remembers it.
    pub fn self_open_id(&mut self, raw: &Json) -> (r: Result<String, String>)
        ensures
            match (open_id_in(raw@), r) {
                (Some(id), Ok(s)) => s@ == id && (final(self).known matches Some(k) && k@ == id),
                (None, Err(e)) => e@ == "lark contact +get-user response missing open_id"@
                    && *final(self) == *old(self),
                _ => false,
            },
    {
        match extract_open_id(raw) {
            Some(id) => {
                self.known = Some(id.clone());
                Ok(id)
            },
            None => Err("lark contact +get-user response missing open_id".to_string()),
        }
    }
}

// ---------------------------------------------------------------------------
// Laws
// ---------------------------------------------------------------------------

proof fn lemma_found_in_members(m: Seq<(Seq<char>, json::Tree)>, from: int, i: int, key: Seq<char>)
    requires
        0 <= from <= i < m.len(),
        deep_find(m[i].1, key) is Some,
    ensures
        find_in_members(m, from, key) is Some,
    decreases i - from,
{
    if from < i {
        lemma_found_in_members(m, from + 1, i, key);
    }
}

proof fn lemma_found_in_items(a: Seq<json::Tree>, from: int, i: int, key: Seq<char>)
    requires
        0 <= from <= i < a.len(),
        deep_find(a[i], key) is Some,
    ensures
        find_in_items(a, from, key) is Some,
    decreases i - from,
{
    if from < i {
        lemma_found_in_items(a, from + 1, i, key);
    }
}

/// A text under the name is found however deep it lies: what is found in a member or in an
/// item is found in the whole.
pub proof fn law_search_reaches_every_depth(
    m: Seq<(Seq<char>, json::Tree)>,
    a: Seq<json::Tree>,
    i: int,
    key: Seq<char>,
)
    ensures
        0 <= i < m.len() && deep_find(m[i].1, key) is Some ==> deep_find(
            json::Tree::Object(m),
            key,
        ) is Some,
        0 <= i < a.len() && deep_find(a[i], key) is Some ==> deep_find(
            json::Tree::Array(a),
            key,
        ) is Some,
{
    if 0 <= i < m.len() && deep_find(m[i].1, key) is Some {
        lemma_found_in_members(m, 0, i, key);
    }
    if 0 <= i < a.len() && deep_find(a[i], key) is Some {
        lemma_found_in_items(a, 0, i, key);
    }
}

/// A text under the name is found in an object before anything below it, and in an array
/// the first item that has one gives it.
pub proof fn law_nearest_text_is_found(
    m: Seq<(Seq<char>, json::Tree)>,
    a: Seq<json::Tree>,
    i: int,
    key: Seq<char>,
    s: Seq<char>,
)
    ensures
        json::member(m, key) == Some(json::Tree::Text(s)) ==> deep_find(json::Tree::Object(m), key)
            == Some(s),
        0 <= i < a.len() && (forall|k: int|
            0 <= k < i ==> deep_find(#[trigger] a[k], key) is None) && deep_find(a[i], key) is Some
            ==> deep_find(json::Tree::Array(a), key) == deep_find(a[i], key),
        0 <= i < m.len() && !(json::member(m, key) matches Some(json::Tree::Text(_))) && (forall|
            k: int,
        |
            0 <= k < i ==> deep_find((#[trigger] m[k]).1, key) is None) && deep_find(m[i].1, key)
            is Some ==> deep_find(json::Tree::Object(m), key) == deep_find(m[i].1, key),
        deep_find(json::Tree::Text(s), key) is None,
{
    if 0 <= i < a.len() && (forall|k: int|
        0 <= k < i ==> deep_find(#[trigger] a[k], key) is None) && deep_find(a[i], key) is Some {
        lemma_first_item(a, 0, i, key);
    }
    if 0 <= i < m.len() && (forall|k: int|
        0 <= k < i ==> deep_find((#[trigger] m[k]).1, key) is None) && deep_find(m[i].1, key)
        is Some {
        lemma_first_member(m, 0, i, key);
    }
}

proof fn lemma_first_item(a: Seq<json::Tree>, from: int, i: int, key: Seq<char>)
    requires
        0 <= from <= i < a.len(),
        forall|k: int| from <= k < i ==> deep_find(#[trigger] a[k], key) is None,
        deep_find(a[i], key) is Some,
    ensures
        find_in_items(a, from, key) == deep_find(a[i], key),
    decreases i - from,
{
    if from < i {
        lemma_first_item(a, from + 1, i, key);
        assert(deep_find(a[from], key) is None);
    }
}

proof fn lemma_first_member(m: Seq<(Seq<char>, json::Tree)>, from: int, i: int, key: Seq<char>)
    requires
        0 <= from <= i < m.len(),
        forall|k: int| from <= k < i ==> deep_find((#[trigger] m[k]).1, key) is None,
        deep_find(m[i].1, key) is Some,
    ensures
        find_in_members(m, from, key) == deep_find(m[i].1, key),
    decreases i - from,
{
    if from < i {
        lemma_first_member(m, from + 1, i, key);
        assert(deep_find(m[from].1, key) is None);
    }
}

/// The user's id is taken from the user in the data, else from the data, else from the
/// answer itself, and is looked for everywhere only where none of them has it.
pub proof fn law_user_is_found_where_answers_tell(raw: json::Tree, id: Seq<char>)
    ensures
        ({
            let data = raw.get("data"@);
            let user = match data {
                Some(d) => d.get("user"@),
                None => None,
            };
            let told = Some(json::Tree::Text(id));
            let in_user = user is Some && user->0.get("open_id"@) is Some;
            let in_data = data is Some && data->0.get("open_id"@) is Some;
            &&& in_user && user->0.get("open_id"@) == told ==> open_id_in(raw) == Some(id)
            &&& !in_user && in_data && data->0.get("open_id"@) == told ==> open_id_in(raw) == Some(id)
            &&& !in_user && !in_data && raw.get("open_id"@) == told ==> open_id_in(raw) == Some(id)
            &&& !in_user && !in_data && raw.get("open_id"@) is None ==> open_id_in(raw)
                == deep_find(raw, "open_id"@)
        }),
{
}

} // verus!
