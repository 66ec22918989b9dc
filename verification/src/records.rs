//! Records in JSON: an object with named members, or an array with the members in their
//! order.
use vstd::prelude::*;
use crate::json;
use crate::json::Json;
use crate::text;

verus! {

/// The value can be a record: an object, or an array with as many items as the record has
/// members, those at the end left out that need not be given.
pub open spec fn shaped(t: json::Tree, least: nat, most: nat) -> bool {
    match t {
        json::Tree::Object(_) => true,
        json::Tree::Array(a) => least <= a.len() <= most,
        _ => false,
    }
}

/// A member of a record: by name in an object, by place in an array.
pub open spec fn field(t: json::Tree, name: Seq<char>, place: int) -> Option<json::Tree> {
    match t {
        json::Tree::Object(m) => json::member(m, name),
        json::Tree::Array(a) => if 0 <= place < a.len() {
            Some(a[place])
        } else {
            None
        },
        _ => None,
    }
}

/// A text that may be missing or null. Anything else is an error, for which nothing
/// stands.
pub open spec fn optional_text(f: Option<json::Tree>) -> Option<Option<Seq<char>>> {
    match f {
        None | Some(json::Tree::Null) => Some(None),
        Some(json::Tree::Text(s)) => Some(Some(s)),
        _ => None,
    }
}

/// A truth value that may be missing or null.
pub open spec fn optional_flag(f: Option<json::Tree>) -> Option<Option<bool>> {
    match f {
        None | Some(json::Tree::Null) => Some(None),
        Some(json::Tree::Bool(b)) => Some(Some(b)),
        _ => None,
    }
}

/// A text that must be given.
pub open spec fn required_text(f: Option<json::Tree>) -> Option<Seq<char>> {
    match f {
        Some(json::Tree::Text(s)) => Some(s),
        _ => None,
    }
}

/// What an optional value is.
pub open spec fn opt_view(f: Option<&Json>) -> Option<json::Tree> {
    match f {
        Some(j) => Some(j.view()),
        None => None,
    }
}

/// What an optional text that was read is.
pub open spec fn opt_opt(r: Option<Option<String>>) -> Option<Option<Seq<char>>> {
    match r {
        Some(o) => Some(text::opt_text(o)),
        None => None,
    }
}

/// Whether the value can be a record.
pub fn is_shaped(j: &Json, least: usize, most: usize) -> (r: bool)
    ensures
        r == shaped(j@, least as nat, most as nat),
{
    proof {
        json::lemma_view_parts(j);
    }
    match j {
        Json::Object(_) => true,
        Json::Array(a) => least <= a.len() && a.len() <= most,
        _ => false,
    }
}

/// A member of a record.
pub fn get_field<'a>(j: &'a Json, name: &str, place: usize) -> (r: Option<&'a Json>)
    ensures
        opt_view(r) == field(j@, name@, place as int),
{
    proof {
        json::lemma_view_parts(j);
    }
    match j {
        Json::Object(_) => j.get(name),
        Json::Array(a) => if place < a.len() {
            Some(&a[place])
        } else {
            None
        },
        _ => None,
    }
}

/// Reads a text that may be missing or null.
pub fn read_optional_text(f: Option<&Json>) -> (r: Option<Option<String>>)
    ensures
        opt_opt(r) == optional_text(opt_view(f)),
{
    match f {
        None => Some(None),
        Some(j) => {
            proof {
                json::lemma_view_parts(j);
            }
            match j {
                Json::Null => Some(None),
                Json::Text(s) => Some(Some(s.clone())),
                _ => None,
            }
        },
    }
}

/// Reads a truth value that may be missing or null.
pub fn read_optional_flag(f: Option<&Json>) -> (r: Option<Option<bool>>)
    ensures
        r == optional_flag(opt_view(f)),
{
    match f {
        None => Some(None),
        Some(j) => {
            proof {
                json::lemma_view_parts(j);
            }
            match j {
                Json::Null => Some(None),
                Json::Bool(b) => Some(Some(*b)),
                _ => None,
            }
        },
    }
}

/// Reads a text that must be given.
pub fn read_required_text(f: Option<&Json>) -> (r: Option<String>)
    ensures
        text::opt_text(r) == required_text(opt_view(f)),
{
    match f {
        None => None,
        Some(j) => {
            proof {
                json::lemma_view_parts(j);
            }
            match j {
                Json::Text(s) => Some(s.clone()),
                _ => None,
            }
        },
    }
}

// ---------------------------------------------------------------------------
// Laws
// ---------------------------------------------------------------------------

/// A record is read the same from an object, by name, as from an array, by place.
pub proof fn law_records_have_two_forms(
    m: Seq<(Seq<char>, json::Tree)>,
    a: Seq<json::Tree>,
    name: Seq<char>,
    place: int,
)
    requires
        0 <= place < a.len() == m.len(),
        m[place] == (name, a[place]),
        forall|i: int, j: int| 0 <= i < j < m.len() ==> m[i].0 != m[j].0,
    ensures
        field(json::Tree::Object(m), name, place) == Some(a[place]),
        field(json::Tree::Array(a), name, place) == Some(a[place]),
        field(json::Tree::Array(a), name, a.len() as int) is None,
        field(a[place], name, place) is Some ==> a[place] is Object || a[place] is Array,
        forall|least: nat, most: nat| #[trigger]
            shaped(json::Tree::Object(m), least, most) && (shaped(json::Tree::Array(a), least, most)
                <==> least <= a.len() <= most),
{
    json::lemma_member_at(m, place);
}

/// A member that may be missing is read where it is given, is nothing where it is missing or
/// null, and is refused where it is of another kind; one that must be given is refused
/// wherever it is no text.
pub proof fn law_members_are_read_by_kind(s: Seq<char>, b: bool)
    ensures
        optional_text(Some(json::Tree::Text(s))) == Some(Some(s)),
        optional_flag(Some(json::Tree::Bool(b))) == Some(Some(b)),
        required_text(Some(json::Tree::Text(s))) == Some(s),
        optional_text(None) == Some(None::<Seq<char>>),
        optional_flag(None) == Some(None::<bool>),
        optional_text(Some(json::Tree::Null)) == Some(None::<Seq<char>>),
        optional_flag(Some(json::Tree::Null)) == Some(None::<bool>),
        required_text(None) is None,
        required_text(Some(json::Tree::Null)) is None,
        optional_text(Some(json::Tree::Bool(b))) is None,
        optional_flag(Some(json::Tree::Text(s))) is None,
        required_text(Some(json::Tree::Bool(b))) is None,
{
}

} // verus!
