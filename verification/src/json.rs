//! JSON values: the library's own tree, and the way to and from text through
//! `serde_json`.
use vstd::prelude::*;
use crate::order;
use crate::text;

verus! {

// ---------------------------------------------------------------------------
// Trees
// ---------------------------------------------------------------------------

/// A JSON value. Whole numbers are told apart by sign; any other number is kept as it
/// prints. The members of an object stand in the order of their names.
pub enum Json {
    Null,
    Bool(bool),
    Uint(u64),
    Int(i64),
    Float(String),
    Text(String),
    Array(Vec<Json>),
    Object(Vec<(String, Json)>),
}

/// What a JSON value is.
pub enum Tree {
    Null,
    Bool(bool),
    Uint(u64),
    Int(i64),
    Float(Seq<char>),
    Text(Seq<char>),
    Array(Seq<Tree>),
    Object(Seq<(Seq<char>, Tree)>),
}

impl Json {
    pub open spec fn view(&self) -> Tree
        decreases self,
    {
        match self {
            Json::Null => Tree::Null,
            Json::Bool(b) => Tree::Bool(*b),
            Json::Uint(n) => Tree::Uint(*n),
            Json::Int(n) => Tree::Int(*n),
            Json::Float(s) => Tree::Float(s@),
            Json::Text(s) => Tree::Text(s@),
            Json::Array(a) => Tree::Array(
                Seq::new(
                    a@.len(),
                    |i: int|
                        if 0 <= i < a@.len() {
                            a@[i].view()
                        } else {
                            Tree::Null
                        },
                ),
            ),
            Json::Object(m) => Tree::Object(
                Seq::new(
                    m@.len(),
                    |i: int|
                        if 0 <= i < m@.len() {
                            (m@[i].0@, m@[i].1.view())
                        } else {
                            (seq![], Tree::Null)
                        },
                ),
            ),
        }
    }
}

/// What the values of a list are.
pub open spec fn trees(v: Seq<Json>) -> Seq<Tree> {
    Seq::new(v.len(), |i: int| v[i].view())
}

/// What the members of an object are.
pub open spec fn member_trees(v: Seq<(String, Json)>) -> Seq<(Seq<char>, Tree)> {
    Seq::new(v.len(), |i: int| (v[i].0@, v[i].1.view()))
}

/// A value made of a list or of members is made of what they are.
pub proof fn lemma_view_parts(j: &Json)
    ensures
        j matches Json::Array(a) ==> j.view() == Tree::Array(trees(a@)),
        j matches Json::Object(m) ==> j.view() == Tree::Object(member_trees(m@)),
{
    match j {
        Json::Array(a) => {
            assert(j.view()->Array_0 =~= trees(a@));
        },
        Json::Object(m) => {
            assert(j.view()->Object_0 =~= member_trees(m@));
        },
        _ => {},
    }
}

/// The first member with the name.
pub open spec fn member(m: Seq<(Seq<char>, Tree)>, key: Seq<char>) -> Option<Tree>
    decreases m.len(),
{
    if m.len() == 0 {
        None
    } else if m[0].0 == key {
        Some(m[0].1)
    } else {
        member(m.drop_first(), key)
    }
}

impl Tree {
    /// The member with the name, where the value is an object that has one.
    pub open spec fn get(self, key: Seq<char>) -> Option<Tree> {
        match self {
            Tree::Object(m) => member(m, key),
            _ => None,
        }
    }

    /// The text, where the value is one.
    pub open spec fn as_text(self) -> Option<Seq<char>> {
        match self {
            Tree::Text(s) => Some(s),
            _ => None,
        }
    }

    /// The number, where the value is a whole number that is not negative.
    pub open spec fn as_uint(self) -> Option<u64> {
        match self {
            Tree::Uint(n) => Some(n),
            _ => None,
        }
    }

    /// The values, where the value is an array.
    pub open spec fn as_list(self) -> Option<Seq<Tree>> {
        match self {
            Tree::Array(a) => Some(a),
            _ => None,
        }
    }

    /// The text of the member with the name.
    pub open spec fn text_at(self, key: Seq<char>) -> Option<Seq<char>> {
        match self.get(key) {
            Some(t) => t.as_text(),
            None => None,
        }
    }

    /// The number of the member with the name.
    pub open spec fn uint_at(self, key: Seq<char>) -> Option<u64> {
        match self.get(key) {
            Some(t) => t.as_uint(),
            None => None,
        }
    }
}

impl Json {
    /// The member with the name, where the value is an object that has one.
    pub fn get(&self, key: &str) -> (r: Option<&Json>)
        ensures
            match r {
                Some(j) => self@.get(key@) == Some(j@),
                None => self@.get(key@) is None,
            },
    {
        match self {
            Json::Object(m) => {
                proof {
                    lemma_view_parts(self);
                }
                let ghost all = member_trees(m@);
                let mut i: usize = 0;
                assert(all.skip(0) =~= all);
                while i < m.len()
                    invariant
                        i <= m@.len(),
                        all == member_trees(m@),
                        member(all, key@) == member(all.skip(i as int), key@),
                        self@ == Tree::Object(all),
                    decreases m@.len() - i,
                {
                    assert(all.skip(i as int)[0] == (m@[i as int].0@, m@[i as int].1.view()));
                    assert(all.skip(i as int).drop_first() =~= all.skip(i + 1));
                    if text::same(m[i].0.as_str(), key) {
                        return Some(&m[i].1);
                    }
                    i += 1;
                }
                None
            },
            _ => None,
        }
    }

    /// The text, where the value is one.
    pub fn as_str(&self) -> (r: Option<&str>)
        ensures
            text::opt_str(r) == self@.as_text(),
    {
        match self {
            Json::Text(s) => Some(s.as_str()),
            _ => None,
        }
    }

    /// The number, where the value is a whole number that is not negative.
    pub fn as_u64(&self) -> (r: Option<u64>)
        ensures
            r == self@.as_uint(),
    {
        match self {
            Json::Uint(n) => Some(*n),
            _ => None,
        }
    }

    /// The values, where the value is an array.
    pub fn as_array(&self) -> (r: Option<&Vec<Json>>)
        ensures
            match r {
                Some(a) => self@.as_list() == Some(trees(a@)),
                None => self@.as_list() is None,
            },
    {
        proof {
            lemma_view_parts(self);
        }
        match self {
            Json::Array(a) => Some(a),
            _ => None,
        }
    }

    /// The text of the member with the name.
    pub fn text_at(&self, key: &str) -> (r: Option<&str>)
        ensures
            text::opt_str(r) == self@.text_at(key@),
    {
        match self.get(key) {
            Some(j) => j.as_str(),
            None => None,
        }
    }

    /// The number of the member with the name.
    pub fn uint_at(&self, key: &str) -> (r: Option<u64>)
        ensures
            r == self@.uint_at(key@),
    {
        match self.get(key) {
            Some(j) => j.as_u64(),
            None => None,
        }
    }

    /// A text value.
    pub fn text(s: &str) -> (r: Json)
        ensures
            r@ == Tree::Text(s@),
    {
        Json::Text(s.to_string())
    }

    /// A text value, or null.
    pub fn text_or_null(s: &Option<String>) -> (r: Json)
        ensures
            r@ == opt_tree(text::opt_text(*s)),
    {
        match s {
            Some(s) => Json::Text(s.clone()),
            None => Json::Null,
        }
    }

    /// An array.
    pub fn array(a: Vec<Json>) -> (r: Json)
        ensures
            r@ == Tree::Array(trees(a@)),
    {
        let r = Json::Array(a);
        proof {
            lemma_view_parts(&r);
        }
        r
    }

    /// An object.
    pub fn object(m: Vec<(String, Json)>) -> (r: Json)
        ensures
            r@ == Tree::Object(member_trees(m@)),
    {
        let r = Json::Object(m);
        proof {
            lemma_view_parts(&r);
        }
        r
    }
}

/// What an optional value is.
pub open spec fn opt_json(j: Option<Json>) -> Option<Tree> {
    match j {
        Some(j) => Some(j.view()),
        None => None,
    }
}

/// A text value, or null.
pub open spec fn opt_tree(s: Option<Seq<char>>) -> Tree {
    match s {
        Some(s) => Tree::Text(s),
        None => Tree::Null,
    }
}

impl Json {
    /// A copy of the value.
    pub fn copy(&self) -> (r: Json)
        ensures
            r@ == self@,
        decreases self,
    {
        match self {
            Json::Null => Json::Null,
            Json::Bool(b) => Json::Bool(*b),
            Json::Uint(n) => Json::Uint(*n),
            Json::Int(n) => Json::Int(*n),
            Json::Float(s) => Json::Float(s.clone()),
            Json::Text(s) => Json::Text(s.clone()),
            Json::Array(a) => {
                let mut out: Vec<Json> = Vec::new();
                let mut i: usize = 0;
                while i < a.len()
                    invariant
                        i <= a@.len(),
                        *self == Json::Array(*a),
                        out@.len() == i,
                        forall|k: int| 0 <= k < i ==> (#[trigger] out@[k])@ == a@[k]@,
                    decreases a@.len() - i,
                {
                    assert(decreases_to!(*self => self->Array_0));
                    assert(decreases_to!(*a => a@));
                    assert(decreases_to!(a@ => a@[i as int]));
                    out.push(a[i].copy());
                    i += 1;
                }
                let r = Json::Array(out);
                proof {
                    lemma_view_parts(&r);
                    lemma_view_parts(self);
                    assert(trees(out@) =~= trees(a@));
                }
                r
            },
            Json::Object(m) => {
                let mut out: Vec<(String, Json)> = Vec::new();
                let mut i: usize = 0;
                while i < m.len()
                    invariant
                        i <= m@.len(),
                        *self == Json::Object(*m),
                        out@.len() == i,
                        forall|k: int|
                            0 <= k < i ==> (#[trigger] out@[k]).0@ == m@[k].0@ && out@[k].1@
                                == m@[k].1@,
                    decreases m@.len() - i,
                {
                    assert(decreases_to!(*self => self->Object_0));
                    assert(decreases_to!(*m => m@));
                    assert(decreases_to!(m@ => m@[i as int]));
                    assert(decreases_to!(m@[i as int] => m@[i as int].1));
                    out.push((m[i].0.clone(), m[i].1.copy()));
                    i += 1;
                }
                let r = Json::Object(out);
                proof {
                    lemma_view_parts(&r);
                    lemma_view_parts(self);
                    assert(member_trees(out@) =~= member_trees(m@));
                }
                r
            },
        }
    }
}

// ---------------------------------------------------------------------------
// Text
// ---------------------------------------------------------------------------

/// A value of the `serde_json` crate.
#[verifier::external_type_specification]
#[verifier::external_body]
pub struct ExJsonValue(serde_json::Value);

/// What a `serde_json` value holds.
pub uninterp spec fn held(v: serde_json::Value) -> Tree;

/// What the text means, where it is JSON.
pub uninterp spec fn meaning(s: Seq<char>) -> Option<Tree>;

/// How a value is written.
pub uninterp spec fn written(t: Tree) -> Seq<char>;

/// What the values of a list hold.
pub open spec fn all_held(v: Seq<serde_json::Value>) -> Seq<Tree> {
    Seq::new(v.len(), |i: int| held(v[i]))
}

/// What the members of an object hold.
pub open spec fn members_held(v: Seq<(String, serde_json::Value)>) -> Seq<(Seq<char>, Tree)> {
    Seq::new(v.len(), |i: int| (v[i].0@, held(v[i].1)))
}

/// The members' names stand in order, none twice.
pub open spec fn names_in_order(m: Seq<(Seq<char>, Tree)>) -> bool {
    forall|i: int, j: int|
        0 <= i < j < m.len() ==> order::precedes((#[trigger] m[i]).0, (#[trigger] m[j]).0)
}

/// The outermost layer of a `serde_json` value.
pub enum Layer {
    Null,
    Bool(bool),
    Uint(u64),
    Int(i64),
    Float(String),
    Text(String),
    Array(Vec<serde_json::Value>),
    Object(Vec<(String, serde_json::Value)>),
}

/// What an outermost layer holds.
pub open spec fn layer_held(p: Layer) -> Tree {
    match p {
        Layer::Null => Tree::Null,
        Layer::Bool(b) => Tree::Bool(b),
        Layer::Uint(n) => Tree::Uint(n),
        Layer::Int(n) => Tree::Int(n),
        Layer::Float(s) => Tree::Float(s@),
        Layer::Text(s) => Tree::Text(s@),
        Layer::Array(a) => Tree::Array(all_held(a@)),
        Layer::Object(m) => Tree::Object(members_held(m@)),
    }
}

/// `serde_json::from_str` into a `Value`: the value that the text means, or nothing where
/// it is not JSON. The result depends on the text alone.
#[verifier::external_body]
fn value_from_text(s: &str) -> (r: Option<serde_json::Value>)
    ensures
        match r {
            Some(v) => meaning(s@) == Some(held(v)),
            None => meaning(s@) is None,
        },
{
    serde_json::from_str::<serde_json::Value>(s).ok()
}

/// The variants of `serde_json::Value` told apart. A number is one that fits `u64`, one
/// below zero that fits `i64`, or any other. An object's map keeps its members in the
/// order of their names.
#[verifier::external_body]
fn value_layer(v: serde_json::Value) -> (r: Layer)
    ensures
        held(v) == layer_held(r),
        r matches Layer::Object(m) ==> names_in_order(members_held(m@)),
{
    match v {
        serde_json::Value::Null => Layer::Null,
        serde_json::Value::Bool(b) => Layer::Bool(b),
        serde_json::Value::Number(n) => match (n.as_u64(), n.as_i64()) {
            (Some(u), _) => Layer::Uint(u),
            (None, Some(i)) => Layer::Int(i),
            (None, None) => Layer::Float(n.to_string()),
        },
        serde_json::Value::String(s) => Layer::Text(s),
        serde_json::Value::Array(a) => Layer::Array(a),
        serde_json::Value::Object(m) => Layer::Object(m.into_iter().collect()),
    }
}

/// The library's tree of a `serde_json` value.
fn from_value(v: serde_json::Value) -> (r: Json)
    ensures
        r@ == held(v),
    decreases held(v),
{
    match value_layer(v) {
        Layer::Null => Json::Null,
        Layer::Bool(b) => Json::Bool(b),
        Layer::Uint(n) => Json::Uint(n),
        Layer::Int(n) => Json::Int(n),
        Layer::Float(s) => Json::Float(s),
        Layer::Text(s) => Json::Text(s),
        Layer::Array(a) => {
            let ghost all = a@;
            let mut out: Vec<Json> = Vec::new();
            for x in it: a
                invariant
                    it.seq() == all,
                    held(v) == Tree::Array(all_held(all)),
                    out@.len() == it.index(),
                    forall|k: int| 0 <= k < out@.len() ==> (#[trigger] out@[k])@ == held(all[k]),
            {
                let ghost k = it.index() as int;
                assert(x == all[k]);
                assert(held(v)->Array_0[k] == held(x));
                assert(decreases_to!(held(v) => held(v)->Array_0[k]));
                out.push(from_value(x));
            }
            let r = Json::array(out);
            assert(trees(out@) =~= all_held(all));
            r
        },
        Layer::Object(m) => {
            let ghost all = m@;
            let mut out: Vec<(String, Json)> = Vec::new();
            for p in it: m
                invariant
                    it.seq() == all,
                    held(v) == Tree::Object(members_held(all)),
                    out@.len() == it.index(),
                    forall|k: int|
                        0 <= k < out@.len() ==> (#[trigger] out@[k]).0@ == all[k].0@ && out@[k].1@
                            == held(all[k].1),
            {
                let ghost k = it.index() as int;
                assert(p == all[k]);
                assert(held(v)->Object_0[k].1 == held(p.1));
                assert(decreases_to!(held(v) => held(v)->Object_0[k].1));
                out.push((p.0, from_value(p.1)));
            }
            let r = Json::object(out);
            assert(member_trees(out@) =~= members_held(all));
            r
        },
    }
}

/// What the text means, where it is JSON.
pub fn parse(s: &str) -> (r: Option<Json>)
    ensures
        match r {
            Some(j) => meaning(s@) == Some(j@),
            None => meaning(s@) is None,
        },
{
    match value_from_text(s) {
        Some(v) => Some(from_value(v)),
        None => None,
    }
}

/// A value that can be written and read back: at most `depth` levels of arrays and
/// objects, the members of each object in the order of their names, and no number but
/// whole ones.
pub open spec fn writable(t: Tree, depth: nat) -> bool
    decreases depth,
{
    match t {
        Tree::Null | Tree::Bool(_) | Tree::Uint(_) | Tree::Text(_) => true,
        Tree::Int(n) => n < 0,
        Tree::Float(_) => false,
        Tree::Array(a) => depth > 0 && forall|i: int|
            0 <= i < a.len() ==> writable(#[trigger] a[i], (depth - 1) as nat),
        Tree::Object(m) => depth > 0 && names_in_order(m) && forall|i: int|
            0 <= i < m.len() ==> writable((#[trigger] m[i]).1, (depth - 1) as nat),
    }
}

proof fn lemma_writable_item(a: Seq<Tree>, depth: nat, i: int)
    requires
        writable(Tree::Array(a), depth),
        0 <= i < a.len(),
    ensures
        depth > 0,
        writable(a[i], (depth - 1) as nat),
{
    let t = Tree::Array(a);
    assert(writable(t, depth));
    assert(forall|k: int|
        0 <= k < t->Array_0.len() ==> writable(#[trigger] t->Array_0[k], (depth - 1) as nat));
}

/// A `serde_json` value to be made, without its numbers that are not whole.
pub enum Draft {
    Null,
    Bool(bool),
    Uint(u64),
    Int(i64),
    Text(String),
    Array(Vec<serde_json::Value>),
    Object(Vec<(String, serde_json::Value)>),
}

/// What a draft holds.
pub open spec fn draft_held(p: Draft) -> Tree {
    match p {
        Draft::Null => Tree::Null,
        Draft::Bool(b) => Tree::Bool(b),
        Draft::Uint(n) => Tree::Uint(n),
        Draft::Int(n) => Tree::Int(n),
        Draft::Text(s) => Tree::Text(s@),
        Draft::Array(a) => Tree::Array(all_held(a@)),
        Draft::Object(m) => Tree::Object(members_held(m@)),
    }
}

/// The constructors of `serde_json::Value`, one for each kind of draft. A signed number
/// is kept as such only below zero, and an object's map keeps its members in the order
/// of their names, so both are asked for here.
#[verifier::external_body]
fn value_from_draft(p: Draft) -> (r: serde_json::Value)
    requires
        p matches Draft::Int(n) ==> n < 0,
        p matches Draft::Object(m) ==> names_in_order(members_held(m@)),
    ensures
        held(r) == draft_held(p),
{
    match p {
        Draft::Null => serde_json::Value::Null,
        Draft::Bool(b) => serde_json::Value::Bool(b),
        Draft::Uint(n) => serde_json::Value::from(n),
        Draft::Int(n) => serde_json::Value::from(n),
        Draft::Text(s) => serde_json::Value::String(s),
        Draft::Array(a) => serde_json::Value::Array(a),
        Draft::Object(m) => serde_json::Value::Object(m.into_iter().collect()),
    }
}

/// `serde_json::Value` written as compact JSON. The text depends on the value alone, and
/// reading it gives the value back where all numbers are whole and arrays and objects
/// are nested at most 100 deep; the reader gives up at 128.
#[verifier::external_body]
fn text_from_value(v: &serde_json::Value) -> (r: String)
    ensures
        r@ == written(held(*v)),
        writable(held(*v), 100) ==> meaning(r@) == Some(held(*v)),
{
    v.to_string()
}

/// The `serde_json` value of a tree.
fn to_value(j: &Json, Ghost(depth): Ghost<nat>) -> (r: serde_json::Value)
    requires
        writable(j@, depth),
    ensures
        held(r) == j@,
    decreases j,
{
    proof {
        lemma_view_parts(j);
    }
    match j {
        Json::Null => value_from_draft(Draft::Null),
        Json::Bool(b) => value_from_draft(Draft::Bool(*b)),
        Json::Uint(n) => value_from_draft(Draft::Uint(*n)),
        Json::Int(n) => value_from_draft(Draft::Int(*n)),
        Json::Float(_) => vstd::pervasive::unreached(),
        Json::Text(s) => value_from_draft(Draft::Text(s.clone())),
        Json::Array(a) => {
            let mut out: Vec<serde_json::Value> = Vec::new();
            let mut i: usize = 0;
            while i < a.len()
                invariant
                    i <= a@.len(),
                    *j == Json::Array(*a),
                    j@ == Tree::Array(trees(a@)),
                    writable(j@, depth),
                    all_held(out@) == trees(a@).take(i as int),
                decreases a@.len() - i,
            {
                assert(decreases_to!(*j => a@[i as int]));
                assert(trees(a@)[i as int] == a@[i as int]@);
                proof {
                    lemma_writable_item(trees(a@), depth, i as int);
                }
                let ghost before = out@;
                let x = to_value(&a[i], Ghost((depth - 1) as nat));
                out.push(x);
                i += 1;
                assert(all_held(out@) =~= all_held(before).push(held(x)));
                assert(all_held(out@) =~= trees(a@).take(i as int));
            }
            assert(all_held(out@) =~= trees(a@));
            value_from_draft(Draft::Array(out))
        },
        Json::Object(m) => {
            let mut out: Vec<(String, serde_json::Value)> = Vec::new();
            let mut i: usize = 0;
            while i < m.len()
                invariant
                    i <= m@.len(),
                    *j == Json::Object(*m),
                    j@ == Tree::Object(member_trees(m@)),
                    writable(j@, depth),
                    members_held(out@) == member_trees(m@).take(i as int),
                decreases m@.len() - i,
            {
                assert(decreases_to!(*j => m@[i as int].1));
                assert(member_trees(m@)[i as int] == (m@[i as int].0@, m@[i as int].1@));
                let ghost before = out@;
                let x = to_value(&m[i].1, Ghost((depth - 1) as nat));
                let name = m[i].0.clone();
                out.push((name, x));
                i += 1;
                assert(members_held(out@) =~= members_held(before).push((name@, held(x))));
                assert(members_held(out@) =~= member_trees(m@).take(i as int));
            }
            assert(members_held(out@) =~= member_trees(m@));
            value_from_draft(Draft::Object(out))
        },
    }
}

/// Writes a value as JSON that reads back as the same value.
pub fn write(j: &Json) -> (r: String)
    requires
        writable(j@, 100),
    ensures
        r@ == written(j@),
        meaning(r@) == Some(j@),
{
    let v = to_value(j, Ghost(100));
    text_from_value(&v)
}

/// A member is found by its name: the first that has it, and none where none has it.
pub proof fn law_members_are_found_by_name(m: Seq<(Seq<char>, Tree)>, key: Seq<char>)
    ensures
        match member(m, key) {
            Some(t) => exists|i: int|
                0 <= i < m.len() && (#[trigger] m[i]) == (key, t) && forall|j: int|
                    0 <= j < i ==> (#[trigger] m[j]).0 != key,
            None => forall|i: int| 0 <= i < m.len() ==> (#[trigger] m[i]).0 != key,
        },
    decreases m.len(),
{
    if m.len() > 0 && m[0].0 != key {
        let rest = m.drop_first();
        law_members_are_found_by_name(rest, key);
        match member(m, key) {
            Some(t) => {
                let i = choose|i: int|
                    0 <= i < rest.len() && (#[trigger] rest[i]) == (key, t) && forall|j: int|
                        0 <= j < i ==> (#[trigger] rest[j]).0 != key;
                assert(m[i + 1] == (key, t));
                assert forall|j: int| 0 <= j < i + 1 implies (#[trigger] m[j]).0 != key by {
                    if j > 0 {
                        assert(rest[j - 1] == m[j]);
                    }
                }
            },
            None => {
                assert forall|i: int| 0 <= i < m.len() implies (#[trigger] m[i]).0 != key by {
                    if i > 0 {
                        assert(rest[i - 1] == m[i]);
                    }
                }
            },
        }
    } else if m.len() > 0 {
        assert(m[0] == (key, m[0].1));
    }
}

/// The member at a place is what its name finds, where no member before it has that name.
pub proof fn lemma_member_at(m: Seq<(Seq<char>, Tree)>, i: int)
    requires
        0 <= i < m.len(),
        forall|j: int| 0 <= j < i ==> (#[trigger] m[j]).0 != m[i].0,
    ensures
        member(m, m[i].0) == Some(m[i].1),
    decreases m.len(),
{
    if i > 0 {
        let rest = m.drop_first();
        assert(m[0].0 != m[i].0);
        assert(rest[i - 1] == m[i]);
        assert forall|j: int| 0 <= j < i - 1 implies (#[trigger] rest[j]).0 != rest[i - 1].0 by {
            assert(rest[j] == m[j + 1]);
        }
        lemma_member_at(rest, i - 1);
    }
}

} // verus!
