//! JSON documents as trees, and the text that they are written as.

use crate::text;
use vstd::prelude::*;

verus! {

/// A parsed JSON document, as `serde_json` holds it.
#[verifier::external_type_specification]
#[verifier::external_body]
pub struct ExJsonValue(serde_json::Value);

/// Why a text is not JSON.
#[verifier::external_type_specification]
#[verifier::external_body]
pub struct ExJsonError(serde_json::Error);

/// A JSON document. The members of an object stand in the order of their
/// names, and no name occurs twice.
pub enum Json {
    Null,
    Bool(bool),
    /// A whole number from zero up.
    PosInt(u64),
    /// A whole number below zero.
    NegInt(i64),
    /// Any other number, as it is written.
    Float(String),
    Text(String),
    Array(Vec<Json>),
    Object(Vec<(String, Json)>),
}

/// The contents of a JSON document.
pub enum JsonTree {
    Null,
    Bool(bool),
    PosInt(u64),
    NegInt(i64),
    Float(Seq<char>),
    Text(Seq<char>),
    Array(Seq<JsonTree>),
    Object(Seq<(Seq<char>, JsonTree)>),
}

impl Json {
    /// The contents of the document.
    pub open spec fn tree(self) -> JsonTree
        decreases self,
    {
        match self {
            Json::Null => JsonTree::Null,
            Json::Bool(b) => JsonTree::Bool(b),
            Json::PosInt(n) => JsonTree::PosInt(n),
            Json::NegInt(n) => JsonTree::NegInt(n),
            Json::Float(s) => JsonTree::Float(s@),
            Json::Text(s) => JsonTree::Text(s@),
            Json::Array(v) => JsonTree::Array(
                Seq::new(
                    v@.len(),
                    |i: int|
                        if 0 <= i < v@.len() {
                            v@[i].tree()
                        } else {
                            JsonTree::Null
                        },
                ),
            ),
            Json::Object(v) => JsonTree::Object(
                Seq::new(
                    v@.len(),
                    |i: int|
                        if 0 <= i < v@.len() {
                            (v@[i].0@, v@[i].1.tree())
                        } else {
                            (Seq::empty(), JsonTree::Null)
                        },
                ),
            ),
        }
    }
}

impl View for Json {
    type V = JsonTree;

    open spec fn view(&self) -> JsonTree {
        self.tree()
    }
}

/// What a `serde_json::Value` holds.
pub uninterp spec fn json_tree(value: serde_json::Value) -> JsonTree;

/// The document that a text is the JSON of, if it is JSON.
pub uninterp spec fn json_document(text: Seq<char>) -> Option<JsonTree>;

/// The text that a document is written as.
pub uninterp spec fn json_text(tree: JsonTree) -> Seq<char>;

/// The document holds no fractional number, numbers below zero are marked so,
/// members stand in the order of their names, and nothing is nested deeper
/// than `depth`.
pub open spec fn is_plain(tree: JsonTree, depth: nat) -> bool
    decreases depth,
{
    match tree {
        JsonTree::Float(_) => false,
        JsonTree::NegInt(n) => n < 0,
        JsonTree::Array(items) => depth > 0 && forall|i: int|
            0 <= i < items.len() ==> is_plain(#[trigger] items[i], (depth - 1) as nat),
        JsonTree::Object(members) => {
            &&& depth > 0
            &&& forall|i: int|
                0 <= i < members.len() ==> is_plain((#[trigger] members[i]).1, (depth - 1) as nat)
            &&& forall|i: int, j: int|
                0 <= i < j < members.len() ==> !text::no_later(
                    (#[trigger] members[j]).0,
                    (#[trigger] members[i]).0,
                )
        },
        _ => true,
    }
}

/// A fractional number is written with these digits: reading them gives a
/// number whose digits they are.
pub open spec fn is_number_text(digits: Seq<char>) -> bool {
    json_document(digits) == Some(JsonTree::Float(digits))
}

/// The document can be written: fractional numbers have the digits that they
/// are written with, numbers below zero are marked so, members stand in the
/// order of their names, and nothing is nested deeper than `depth`.
pub open spec fn is_writable(tree: JsonTree, depth: nat) -> bool
    decreases depth,
{
    match tree {
        JsonTree::Float(digits) => is_number_text(digits),
        JsonTree::NegInt(n) => n < 0,
        JsonTree::Array(items) => depth > 0 && forall|i: int|
            0 <= i < items.len() ==> is_writable(#[trigger] items[i], (depth - 1) as nat),
        JsonTree::Object(members) => {
            &&& depth > 0
            &&& forall|i: int|
                0 <= i < members.len() ==> is_writable(
                    (#[trigger] members[i]).1,
                    (depth - 1) as nat,
                )
            &&& forall|i: int, j: int|
                0 <= i < j < members.len() ==> !text::no_later(
                    (#[trigger] members[j]).0,
                    (#[trigger] members[i]).0,
                )
        },
        _ => true,
    }
}

proof fn lemma_plain_is_writable(tree: JsonTree, depth: nat)
    requires
        is_plain(tree, depth),
    ensures
        is_writable(tree, depth),
    decreases depth,
{
    match tree {
        JsonTree::Array(items) => {
            assert forall|i: int| 0 <= i < items.len() implies is_writable(
                #[trigger] items[i],
                (depth - 1) as nat,
            ) by {
                lemma_plain_is_writable(items[i], (depth - 1) as nat);
            }
        },
        JsonTree::Object(members) => {
            assert forall|i: int| 0 <= i < members.len() implies is_writable(
                (#[trigger] members[i]).1,
                (depth - 1) as nat,
            ) by {
                lemma_plain_is_writable(members[i].1, (depth - 1) as nat);
            }
        },
        _ => {},
    }
}

/// The deepest nesting that written documents have here. The reader accepts
/// more than this.
pub const PLAIN_DEPTH: u64 = 100;

/// `serde_json::from_str` into a `Value`: the document that the text is the
/// JSON of, or an error when it is not JSON. What it accepts is a function of
/// the text alone.
#[verifier::external_body]
fn read_value(text: &str) -> (r: Result<serde_json::Value, serde_json::Error>)
    ensures
        r matches Ok(value) ==> json_document(text@) == Some(json_tree(value)),
        r is Err ==> json_document(text@) is None,
{
    serde_json::from_str::<serde_json::Value>(text)
}

/// Moves a `serde_json::Value` into a tree of this library, one for one.
#[verifier::external_body]
fn json_of_value(value: serde_json::Value) -> (r: Json)
    ensures
        r@ == json_tree(value),
{
    match value {
        serde_json::Value::Null => Json::Null,
        serde_json::Value::Bool(b) => Json::Bool(b),
        serde_json::Value::Number(n) => match (n.as_u64(), n.as_i64()) {
            (Some(u), _) => Json::PosInt(u),
            (None, Some(i)) => Json::NegInt(i),
            (None, None) => Json::Float(n.to_string()),
        },
        serde_json::Value::String(s) => Json::Text(s),
        serde_json::Value::Array(v) => Json::Array(v.into_iter().map(json_of_value).collect()),
        serde_json::Value::Object(m) => Json::Object(m.into_iter().map(|(k, v)| (k, json_of_value(v))).collect()),
    }
}

/// Moves a tree of this library into a `serde_json::Value`, one for one. A
/// fractional number is what `serde_json::from_str` reads from its digits, so
/// digits that another number is written with are left out.
#[verifier::external_body]
fn value_of_json(json: Json) -> (r: serde_json::Value)
    requires
        is_writable(json@, PLAIN_DEPTH as nat),
    ensures
        json_tree(r) == json@,
{
    match json {
        Json::Null => serde_json::Value::Null,
        Json::Bool(b) => serde_json::Value::Bool(b),
        Json::PosInt(n) => serde_json::Value::from(n),
        Json::NegInt(n) => serde_json::Value::from(n),
        Json::Float(s) => serde_json::from_str(&s).unwrap_or_default(),
        Json::Text(s) => serde_json::Value::String(s),
        Json::Array(v) => serde_json::Value::Array(v.into_iter().map(value_of_json).collect()),
        Json::Object(m) => serde_json::Value::Object(m.into_iter().map(|(k, v)| (k, value_of_json(v))).collect()),
    }
}

/// `Value::to_string`: the document on one line. Reading the text back gives
/// the document, where it holds no fractional number and is not nested deeper
/// than the reader goes.
#[verifier::external_body]
fn write_value(value: &serde_json::Value) -> (r: String)
    ensures
        r@ == json_text(json_tree(*value)),
        is_plain(json_tree(*value), PLAIN_DEPTH as nat) ==> json_document(r@) == Some(
            json_tree(*value),
        ),
{
    value.to_string()
}

/// Reads a JSON document.
pub fn parse(text: &str) -> (r: Option<Json>)
    ensures
        r matches Some(json) ==> json_document(text@) == Some(json@),
        r is None ==> json_document(text@) is None,
{
    match read_value(text) {
        Ok(value) => Some(json_of_value(value)),
        Err(_) => None,
    }
}

/// Writes a JSON document on one line.
pub fn render(json: Json) -> (r: String)
    requires
        is_plain(json@, PLAIN_DEPTH as nat),
    ensures
        r@ == json_text(json@),
        json_document(r@) == Some(json@),
{
    proof {
        lemma_plain_is_writable(json@, PLAIN_DEPTH as nat);
    }
    let value = value_of_json(json);
    write_value(&value)
}

proof fn lemma_unwritable_item(items: Seq<JsonTree>, depth: nat, i: int)
    requires
        depth > 0,
        0 <= i < items.len(),
        !is_writable(items[i], (depth - 1) as nat),
    ensures
        !is_writable(JsonTree::Array(items), depth),
{
    assert(JsonTree::Array(items)->Array_0 == items);
}

proof fn lemma_unwritable_member(members: Seq<(Seq<char>, JsonTree)>, depth: nat, i: int)
    requires
        depth > 0,
        0 <= i < members.len(),
        !is_writable(members[i].1, (depth - 1) as nat),
    ensures
        !is_writable(JsonTree::Object(members), depth),
{
    assert(JsonTree::Object(members)->Object_0 == members);
}

proof fn lemma_unordered_members(members: Seq<(Seq<char>, JsonTree)>, depth: nat, i: int)
    requires
        0 < i < members.len(),
        text::no_later(members[i].0, members[i - 1].0),
    ensures
        !is_writable(JsonTree::Object(members), depth),
{
    assert(JsonTree::Object(members)->Object_0 == members);
}

/// Whether a document can be written.
fn writable(json: &Json, depth: u64) -> (r: bool)
    ensures
        r == is_writable(json@, depth as nat),
    decreases depth,
{
    match json {
        Json::Null | Json::Bool(_) | Json::PosInt(_) | Json::Text(_) => true,
        Json::NegInt(n) => *n < 0,
        Json::Float(digits) => match parse(digits.as_str()) {
            Some(Json::Float(read)) => text::same(read.as_str(), digits.as_str()),
            _ => false,
        },
        Json::Array(items) => {
            if depth == 0 {
                return false;
            }
            let ghost tree = json@->Array_0;
            let mut i: usize = 0;
            while i < items.len()
                invariant
                    i <= items.len(),
                    depth > 0,
                    json@ == JsonTree::Array(tree),
                    tree.len() == items.len(),
                    forall|k: int| 0 <= k < items.len() ==> #[trigger] tree[k] == items@[k]@,
                    forall|k: int|
                        0 <= k < i ==> is_writable(#[trigger] tree[k], (depth - 1) as nat),
                decreases items.len() - i,
            {
                assert(tree[i as int] == items@[i as int]@);
                if !writable(&items[i], depth - 1) {
                    proof {
                        lemma_unwritable_item(tree, depth as nat, i as int);
                    }
                    return false;
                }
                i += 1;
            }
            true
        },
        Json::Object(members) => {
            if depth == 0 {
                return false;
            }
            let ghost tree = json@->Object_0;
            let mut i: usize = 0;
            while i < members.len()
                invariant
                    i <= members.len(),
                    depth > 0,
                    json@ == JsonTree::Object(tree),
                    tree.len() == members.len(),
                    forall|k: int|
                        0 <= k < members.len() ==> #[trigger] tree[k] == (
                            members@[k].0@,
                            members@[k].1@,
                        ),
                    forall|k: int|
                        0 <= k < i ==> is_writable((#[trigger] tree[k]).1, (depth - 1) as nat),
                    forall|a: int, b: int|
                        0 <= a < b < i ==> !text::no_later(
                            (#[trigger] tree[b]).0,
                            (#[trigger] tree[a]).0,
                        ),
                decreases members.len() - i,
            {
                assert(tree[i as int] == (members@[i as int].0@, members@[i as int].1@));
                if !writable(&members[i].1, depth - 1) {
                    proof {
                        lemma_unwritable_member(tree, depth as nat, i as int);
                    }
                    return false;
                }
                if i > 0 {
                    assert(tree[i - 1] == (members@[i - 1].0@, members@[i - 1].1@));
                    if text::text_no_later(members[i].0.as_str(), members[i - 1].0.as_str()) {
                        proof {
                            lemma_unordered_members(tree, depth as nat, i as int);
                        }
                        return false;
                    }
                }
                proof {
                    assert forall|a: int, b: int| 0 <= a < b < i + 1 implies !text::no_later(
                        (#[trigger] tree[b]).0,
                        (#[trigger] tree[a]).0,
                    ) by {
                        if b == i && a < i - 1 {
                            assert(!text::no_later(tree[i - 1].0, tree[a].0));
                            text::lemma_no_later_total(tree[i - 1].0, tree[a].0);
                            if text::no_later(tree[b].0, tree[a].0) {
                                text::lemma_no_later_transitive(
                                    tree[b].0,
                                    tree[a].0,
                                    tree[i - 1].0,
                                );
                            }
                        }
                    }
                }
                i += 1;
            }
            true
        },
    }
}

/// Writes a JSON document on one line, or gives it back where it cannot be
/// written.
pub fn try_render(json: Json) -> (r: Result<String, Json>)
    ensures
        match r {
            Ok(s) => is_writable(json@, PLAIN_DEPTH as nat) && s@ == json_text(json@),
            Err(back) => !is_writable(json@, PLAIN_DEPTH as nat) && back@ == json@,
        },
{
    if writable(&json, PLAIN_DEPTH) {
        let value = value_of_json(json);
        Ok(write_value(&value))
    } else {
        Err(json)
    }
}

/// The member of an object under a name. What is no object has no members.
pub open spec fn member(tree: JsonTree, name: Seq<char>) -> Option<JsonTree> {
    match tree {
        JsonTree::Object(members) => text::lookup(members, name),
        _ => None,
    }
}

pub open spec fn text_value(tree: Option<JsonTree>) -> Option<Seq<char>> {
    match tree {
        Some(JsonTree::Text(s)) => Some(s),
        _ => None,
    }
}

/// The whole number that a document is, where it fits.
pub open spec fn int_value(tree: Option<JsonTree>) -> Option<i64> {
    match tree {
        Some(JsonTree::PosInt(n)) => if n <= i64::MAX {
            Some(n as i64)
        } else {
            None
        },
        Some(JsonTree::NegInt(n)) => Some(n),
        _ => None,
    }
}

impl Json {
    pub fn get(&self, name: &str) -> (r: Option<&Json>)
        ensures
            r matches Some(json) ==> member(self@, name@) == Some(json@),
            r is None ==> member(self@, name@) is None,
    {
        match self {
            Json::Object(members) => {
                let ghost tree = self@->Object_0;
                let mut i: usize = 0;
                proof {
                    assert(tree.skip(0) =~= tree);
                }
                while i < members.len()
                    invariant
                        i <= members.len(),
                        self@ == JsonTree::Object(tree),
                        tree.len() == members.len(),
                        forall|j: int|
                            0 <= j < members.len() ==> #[trigger] tree[j] == (
                                members@[j].0@,
                                members@[j].1@,
                            ),
                        text::lookup(tree.skip(i as int), name@) == text::lookup(tree, name@),
                    decreases members.len() - i,
                {
                    proof {
                        text::lemma_lookup_skip(tree, name@, i as int);
                    }
                    if text::same(members[i].0.as_str(), name) {
                        return Some(&members[i].1);
                    }
                    i += 1;
                }
                None
            },
            _ => None,
        }
    }

    pub fn as_str(&self) -> (r: Option<&str>)
        ensures
            r matches Some(s) ==> text_value(Some(self@)) == Some(s@),
            r is None ==> text_value(Some(self@)) is None,
    {
        match self {
            Json::Text(s) => Some(s.as_str()),
            _ => None,
        }
    }

    pub fn as_i64(&self) -> (r: Option<i64>)
        ensures
            r == int_value(Some(self@)),
    {
        match self {
            Json::PosInt(n) => if *n <= i64::MAX as u64 {
                Some(*n as i64)
            } else {
                None
            },
            Json::NegInt(n) => Some(*n),
            _ => None,
        }
    }
}

/// The document is a list of texts.
pub open spec fn is_text_list(tree: JsonTree) -> bool {
    tree matches JsonTree::Array(items) && forall|i: int|
        0 <= i < items.len() ==> (#[trigger] items[i]) is Text
}

/// The texts that a document is a list of.
pub open spec fn text_list(tree: JsonTree) -> Option<Seq<Seq<char>>> {
    if is_text_list(tree) {
        let items = tree->Array_0;
        Some(Seq::new(items.len(), |i: int| items[i]->Text_0))
    } else {
        None
    }
}

fn texts_in(items: &Vec<Json>) -> (r: Option<Vec<String>>)
    ensures
        r matches Some(v) ==> (forall|i: int|
            0 <= i < items.len() ==> (#[trigger] items@[i])@ is Text) && text::texts(v@)
            == Seq::new(items@.len(), |i: int| items@[i]@->Text_0),
        r is None ==> exists|i: int|
            0 <= i < items.len() && !((#[trigger] items@[i])@ is Text),
{
    let mut out: Vec<String> = Vec::new();
    let mut i: usize = 0;
    while i < items.len()
        invariant
            i <= items.len(),
            out.len() == i,
            forall|k: int| 0 <= k < i ==> (#[trigger] items@[k])@ is Text,
            forall|k: int| 0 <= k < i ==> (#[trigger] out@[k])@ == items@[k]@->Text_0,
        decreases items.len() - i,
    {
        match &items[i] {
            Json::Text(s) => {
                assert(items@[i as int]@ == JsonTree::Text(s@));
                out.push(s.clone());
            },
            _ => {
                assert(!(items@[i as int]@ is Text));
                return None;
            },
        }
        i += 1;
    }
    assert(text::texts(out@) =~= Seq::new(items@.len(), |i: int| items@[i]@->Text_0));
    Some(out)
}

impl Json {
    /// The texts that a document is a list of.
    pub fn as_texts(&self) -> (r: Option<Vec<String>>)
        ensures
            r matches Some(v) ==> text_list(self@) == Some(text::texts(v@)),
            r is None ==> text_list(self@) is None,
    {
        match self {
            Json::Array(items) => {
                let ghost tree = self@->Array_0;
                assert(forall|i: int| 0 <= i < items.len() ==> #[trigger] tree[i] == items@[i]@);
                match texts_in(items) {
                    Some(v) => {
                        assert forall|i: int| 0 <= i < tree.len() implies (
                        #[trigger] tree[i]) is Text by {
                            assert(items@[i]@ is Text);
                        }
                        assert(text_list(self@)->0 =~= text::texts(v@));
                        Some(v)
                    },
                    None => {
                        let ghost i = choose|i: int|
                            0 <= i < items.len() && !((#[trigger] items@[i])@ is Text);
                        assert(!(tree[i] is Text));
                        None
                    },
                }
            },
            _ => None,
        }
    }
}

} // verus!
