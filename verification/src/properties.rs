//! The properties that an operator sets on a block.

use crate::text;
use vstd::prelude::*;

verus! {

/// One property's value. A fractional number is held as the bits of its
/// double-precision form.
pub enum PropertyValue {
    String(String),
    Int(i64),
    UInt(u64),
    Float(u64),
    Bool(bool),
}

/// The double-precision bits of `0.0`.
pub const FLOAT_ZERO: u64 = 0;

/// The double-precision bits of `1.0`.
pub const FLOAT_ONE: u64 = 0x3ff0000000000000;

/// What a property's value is.
pub enum PropertyTree {
    Text(Seq<char>),
    Int(i64),
    UInt(u64),
    Float(u64),
    Bool(bool),
}

impl View for PropertyValue {
    type V = PropertyTree;

    open spec fn view(&self) -> PropertyTree {
        match self {
            PropertyValue::String(s) => PropertyTree::Text(s@),
            PropertyValue::Int(n) => PropertyTree::Int(*n),
            PropertyValue::UInt(n) => PropertyTree::UInt(*n),
            PropertyValue::Float(bits) => PropertyTree::Float(*bits),
            PropertyValue::Bool(b) => PropertyTree::Bool(*b),
        }
    }
}

impl PropertyValue {
    pub fn duplicate(&self) -> (r: PropertyValue)
        ensures
            r@ == self@,
    {
        match self {
            PropertyValue::String(s) => PropertyValue::String(s.clone()),
            PropertyValue::Int(n) => PropertyValue::Int(*n),
            PropertyValue::UInt(n) => PropertyValue::UInt(*n),
            PropertyValue::Float(bits) => PropertyValue::Float(*bits),
            PropertyValue::Bool(b) => PropertyValue::Bool(*b),
        }
    }
}

/// Property values by name.
pub struct Properties {
    pub entries: Vec<(String, PropertyValue)>,
}

/// The contents of a set of properties: names and values.
pub type PropertyMap = Seq<(Seq<char>, PropertyTree)>;

impl View for Properties {
    type V = PropertyMap;

    open spec fn view(&self) -> PropertyMap {
        self.entries@.map_values(|e: (String, PropertyValue)| (e.0@, e.1@))
    }
}

pub open spec fn text_property(p: PropertyMap, name: Seq<char>) -> Option<Seq<char>> {
    match text::lookup(p, name) {
        Some(PropertyTree::Text(s)) => Some(s),
        _ => None,
    }
}

pub open spec fn text_or(p: PropertyMap, name: Seq<char>, fallback: Seq<char>) -> Seq<char> {
    match text_property(p, name) {
        Some(s) => s,
        None => fallback,
    }
}

/// The text under a name unless it is missing or blank.
pub open spec fn filled_text_or(p: PropertyMap, name: Seq<char>, fallback: Seq<char>) -> Seq<char> {
    match text_property(p, name) {
        Some(s) => if text::trimmed(s).len() > 0 {
            s
        } else {
            fallback
        },
        None => fallback,
    }
}

pub open spec fn bool_or(p: PropertyMap, name: Seq<char>, fallback: bool) -> bool {
    match text::lookup(p, name) {
        Some(PropertyTree::Bool(b)) => b,
        _ => fallback,
    }
}

pub open spec fn int_or(p: PropertyMap, name: Seq<char>, fallback: i64) -> i64 {
    match text::lookup(p, name) {
        Some(PropertyTree::Int(n)) => n,
        _ => fallback,
    }
}

/// A number that is written as unsigned, or as signed and not below `least`.
pub open spec fn unsigned_from(p: PropertyMap, name: Seq<char>, least: i64) -> Option<u64> {
    match text::lookup(p, name) {
        Some(PropertyTree::UInt(n)) => Some(n),
        Some(PropertyTree::Int(n)) => if n >= least {
            Some(n as u64)
        } else {
            None
        },
        _ => None,
    }
}

impl Properties {
    pub fn new() -> (r: Properties)
        ensures
            r@ == Seq::<(Seq<char>, PropertyTree)>::empty(),
    {
        let r = Properties { entries: Vec::new() };
        assert(r@ =~= Seq::<(Seq<char>, PropertyTree)>::empty());
        r
    }

    /// Adds a value under a name that has none yet.
    pub fn add(&mut self, name: &str, value: PropertyValue)
        ensures
            final(self)@ == old(self)@.push((name@, value@)),
    {
        self.entries.push((name.to_owned(), value));
        assert(self@ =~= old(self)@.push((name@, value@)));
    }

    pub fn get(&self, name: &str) -> (r: Option<&PropertyValue>)
        ensures
            r matches Some(v) ==> text::lookup(self@, name@) == Some(v@),
            r is None ==> text::lookup(self@, name@) is None,
    {
        let mut i: usize = 0;
        proof {
            assert(self@.skip(0) =~= self@);
        }
        while i < self.entries.len()
            invariant
                i <= self.entries.len(),
                self@.len() == self.entries.len(),
                text::lookup(self@.skip(i as int), name@) == text::lookup(self@, name@),
            decreases self.entries.len() - i,
        {
            proof {
                text::lemma_lookup_skip(self@, name@, i as int);
            }
            if text::same(self.entries[i].0.as_str(), name) {
                return Some(&self.entries[i].1);
            }
            i += 1;
        }
        None
    }

    pub fn text(&self, name: &str) -> (r: Option<String>)
        ensures
            r matches Some(s) ==> text_property(self@, name@) == Some(s@),
            r is None ==> text_property(self@, name@) is None,
    {
        match self.get(name) {
            Some(PropertyValue::String(s)) => Some(s.clone()),
            _ => None,
        }
    }

    pub fn text_or(&self, name: &str, fallback: &str) -> (r: String)
        ensures
            r@ == text_or(self@, name@, fallback@),
    {
        match self.text(name) {
            Some(s) => s,
            None => fallback.to_owned(),
        }
    }

    pub fn filled_text_or(&self, name: &str, fallback: &str) -> (r: String)
        ensures
            r@ == filled_text_or(self@, name@, fallback@),
    {
        match self.text(name) {
            Some(s) => {
                let bare = text::trim(s.as_str());
                if bare.as_str().is_empty() {
                    fallback.to_owned()
                } else {
                    s
                }
            },
            None => fallback.to_owned(),
        }
    }

    pub fn bool_or(&self, name: &str, fallback: bool) -> (r: bool)
        ensures
            r == bool_or(self@, name@, fallback),
    {
        match self.get(name) {
            Some(PropertyValue::Bool(b)) => *b,
            _ => fallback,
        }
    }

    pub fn int_or(&self, name: &str, fallback: i64) -> (r: i64)
        ensures
            r == int_or(self@, name@, fallback),
    {
        match self.get(name) {
            Some(PropertyValue::Int(n)) => *n,
            _ => fallback,
        }
    }

    pub fn unsigned_from(&self, name: &str, least: i64) -> (r: Option<u64>)
        requires
            least >= 0,
        ensures
            r == unsigned_from(self@, name@, least),
    {
        match self.get(name) {
            Some(PropertyValue::UInt(n)) => Some(*n),
            Some(PropertyValue::Int(n)) => if *n >= least {
                Some(*n as u64)
            } else {
                None
            },
            _ => None,
        }
    }
}

} // verus!
