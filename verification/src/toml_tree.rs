//! TOML documents: their tables and texts, read through the `toml` crate.
use vstd::prelude::*;
use crate::order;
use crate::text;

verus! {

/// A TOML value, as far as texts and tables go. The entries of a table stand in the order
/// of their keys.
pub enum Toml {
    Text(String),
    Table(Vec<(String, Toml)>),
    Other,
}

/// What a TOML value is, as far as texts and tables go.
pub enum TomlTree {
    Text(Seq<char>),
    Table(Seq<(Seq<char>, TomlTree)>),
    Other,
}

impl Toml {
    pub open spec fn view(&self) -> TomlTree
        decreases self,
    {
        match self {
            Toml::Text(s) => TomlTree::Text(s@),
            Toml::Table(t) => TomlTree::Table(
                Seq::new(
                    t@.len(),
                    |i: int|
                        if 0 <= i < t@.len() {
                            (t@[i].0@, t@[i].1.view())
                        } else {
                            (seq![], TomlTree::Other)
                        },
                ),
            ),
            Toml::Other => TomlTree::Other,
        }
    }
}

/// What the entries of a table are.
pub open spec fn entry_trees(v: Seq<(String, Toml)>) -> Seq<(Seq<char>, TomlTree)> {
    Seq::new(v.len(), |i: int| (v[i].0@, v[i].1.view()))
}

/// A table is made of what its entries are.
pub proof fn lemma_view_entries(t: &Toml)
    ensures
        t matches Toml::Table(e) ==> t.view() == TomlTree::Table(entry_trees(e@)),
{
    match t {
        Toml::Table(e) => {
            assert(t.view()->Table_0 =~= entry_trees(e@));
        },
        _ => {},
    }
}

/// The entry with the key.
pub open spec fn entry(t: Seq<(Seq<char>, TomlTree)>, key: Seq<char>) -> Option<TomlTree>
    decreases t.len(),
{
    if t.len() == 0 {
        None
    } else if t[0].0 == key {
        Some(t[0].1)
    } else {
        entry(t.drop_first(), key)
    }
}

impl TomlTree {
    /// The entry with the key, where the value is a table that has one.
    pub open spec fn get(self, key: Seq<char>) -> Option<TomlTree> {
        match self {
            TomlTree::Table(t) => entry(t, key),
            _ => None,
        }
    }

    /// The text of the entry with the key.
    pub open spec fn text_at(self, key: Seq<char>) -> Option<Seq<char>> {
        match self.get(key) {
            Some(TomlTree::Text(s)) => Some(s),
            _ => None,
        }
    }
}

/// What an optional value is.
pub open spec fn opt_toml(t: Option<&Toml>) -> Option<TomlTree> {
    match t {
        Some(t) => Some(t.view()),
        None => None,
    }
}

impl Toml {
    /// The entry with the key, where the value is a table that has one.
    pub fn get(&self, key: &str) -> (r: Option<&Toml>)
        ensures
            opt_toml(r) == self@.get(key@),
    {
        match self {
            Toml::Table(t) => {
                proof {
                    lemma_view_entries(self);
                }
                let ghost all = entry_trees(t@);
                let mut i: usize = 0;
                assert(all.skip(0) =~= all);
                while i < t.len()
                    invariant
                        i <= t@.len(),
                        all == entry_trees(t@),
                        entry(all, key@) == entry(all.skip(i as int), key@),
                        self@ == TomlTree::Table(all),
                    decreases t@.len() - i,
                {
                    assert(all.skip(i as int)[0] == (t@[i as int].0@, t@[i as int].1.view()));
                    assert(all.skip(i as int).drop_first() =~= all.skip(i + 1));
                    if text::same(t[i].0.as_str(), key) {
                        return Some(&t[i].1);
                    }
                    i += 1;
                }
                None
            },
            _ => None,
        }
    }

    /// The text of the entry with the key.
    pub fn text_at(&self, key: &str) -> (r: Option<&str>)
        ensures
            text::opt_str(r) == self@.text_at(key@),
    {
        match self.get(key) {
            Some(Toml::Text(s)) => Some(s.as_str()),
            Some(j) => {
                proof {
                    lemma_view_entries(j);
                }
                None
            },
            None => None,
        }
    }
}

// ---------------------------------------------------------------------------
// Documents
// ---------------------------------------------------------------------------

/// A value of the `toml` crate.
#[verifier::external_type_specification]
#[verifier::external_body]
pub struct ExTomlValue(toml::Value);

/// What a `toml` value holds.
pub uninterp spec fn held(v: toml::Value) -> TomlTree;

/// What the document means, where it is TOML.
pub uninterp spec fn meaning(s: Seq<char>) -> Option<TomlTree>;

/// What the entries of a table hold.
pub open spec fn entries_held(v: Seq<(String, toml::Value)>) -> Seq<(Seq<char>, TomlTree)> {
    Seq::new(v.len(), |i: int| (v[i].0@, held(v[i].1)))
}

/// The keys stand in order, none twice.
pub open spec fn keys_in_order(t: Seq<(Seq<char>, TomlTree)>) -> bool {
    forall|i: int, j: int|
        0 <= i < j < t.len() ==> order::precedes((#[trigger] t[i]).0, (#[trigger] t[j]).0)
}

/// The outermost layer of a `toml` value.
pub enum Layer {
    Text(String),
    Table(Vec<(String, toml::Value)>),
    Other,
}

/// What an outermost layer holds.
pub open spec fn layer_held(l: Layer) -> TomlTree {
    match l {
        Layer::Text(s) => TomlTree::Text(s@),
        Layer::Table(t) => TomlTree::Table(entries_held(t@)),
        Layer::Other => TomlTree::Other,
    }
}

/// `toml::from_str` into a `Value`: the value that the document means, or nothing where it
/// is not TOML. The result depends on the text alone.
#[verifier::external_body]
fn value_from_text(s: &str) -> (r: Option<toml::Value>)
    ensures
        match r {
            Some(v) => meaning(s@) == Some(held(v)),
            None => meaning(s@) is None,
        },
{
    toml::from_str::<toml::Value>(s).ok()
}

/// The variants of `toml::Value` told apart, those that are neither text nor table taken
/// together. A table's map keeps its entries in the order of their keys.
#[verifier::external_body]
fn value_layer(v: toml::Value) -> (r: Layer)
    ensures
        held(v) == layer_held(r),
        r matches Layer::Table(t) ==> keys_in_order(entries_held(t@)),
{
    match v {
        toml::Value::String(s) => Layer::Text(s),
        toml::Value::Table(t) => Layer::Table(t.into_iter().collect()),
        toml::Value::Integer(_) => Layer::Other,
        toml::Value::Float(_) => Layer::Other,
        toml::Value::Boolean(_) => Layer::Other,
        toml::Value::Datetime(_) => Layer::Other,
        toml::Value::Array(_) => Layer::Other,
    }
}

fn from_value(v: toml::Value) -> (r: Toml)
    ensures
        r@ == held(v),
    decreases held(v),
{
    match value_layer(v) {
        Layer::Text(s) => Toml::Text(s),
        Layer::Table(t) => {
            let ghost all = t@;
            let mut out: Vec<(String, Toml)> = Vec::new();
            for p in it: t
                invariant
                    it.seq() == all,
                    held(v) == TomlTree::Table(entries_held(all)),
                    out@.len() == it.index(),
                    forall|k: int|
                        0 <= k < out@.len() ==> (#[trigger] out@[k]).0@ == all[k].0@ && out@[k].1@
                            == held(all[k].1),
            {
                let ghost k = it.index() as int;
                assert(p == all[k]);
                assert(held(v)->Table_0[k].1 == held(p.1));
                assert(decreases_to!(held(v) => held(v)->Table_0[k].1));
                out.push((p.0, from_value(p.1)));
            }
            let r = Toml::Table(out);
            proof {
                lemma_view_entries(&r);
            }
            assert(entry_trees(out@) =~= entries_held(all));
            r
        },
        Layer::Other => Toml::Other,
    }
}

/// What the document means, where it is TOML.
pub fn parse(s: &str) -> (r: Option<Toml>)
    ensures
        match r {
            Some(t) => meaning(s@) == Some(t@),
            None => meaning(s@) is None,
        },
{
    match value_from_text(s) {
        Some(v) => Some(from_value(v)),
        None => None,
    }
}

/// An entry is found by its key: the first that has it, and none where none has it.
pub proof fn law_entries_are_found_by_key(t: Seq<(Seq<char>, TomlTree)>, key: Seq<char>)
    ensures
        match entry(t, key) {
            Some(v) => exists|i: int|
                0 <= i < t.len() && #[trigger] t[i] == (key, v) && forall|j: int|
                    0 <= j < i ==> (#[trigger] t[j]).0 != key,
            None => forall|i: int| 0 <= i < t.len() ==> (#[trigger] t[i]).0 != key,
        },
    decreases t.len(),
{
    if t.len() > 0 && t[0].0 != key {
        let rest = t.drop_first();
        law_entries_are_found_by_key(rest, key);
        match entry(t, key) {
            Some(v) => {
                let i = choose|i: int|
                    0 <= i < rest.len() && #[trigger] rest[i] == (key, v) && forall|j: int|
                        0 <= j < i ==> (#[trigger] rest[j]).0 != key;
                assert(t[i + 1] == (key, v));
                assert forall|j: int| 0 <= j < i + 1 implies (#[trigger] t[j]).0 != key by {
                    if j > 0 {
                        assert(rest[j - 1] == t[j]);
                    }
                }
            },
            None => {
                assert forall|i: int| 0 <= i < t.len() implies (#[trigger] t[i]).0 != key by {
                    if i > 0 {
                        assert(rest[i - 1] == t[i]);
                    }
                }
            },
        }
    } else if t.len() > 0 {
        assert(t[0] == (key, t[0].1));
    }
}

} // verus!
