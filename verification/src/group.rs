//! The data model of a parsed document: a `ConfigurationItem` is one
//! key/value pair, a `Group` is a collection of items with unique keys.
//!
//! A `Group` is viewed abstractly as a `Map<Seq<char>, Seq<char>>` from keys
//! to values; every accessor is specified against that map.

use vstd::map::*;
use vstd::prelude::*;

use crate::errors::ConfigValueError;
use crate::text::str_eq;

verus! {

/// One key/value pair of a configuration document.
#[derive(Debug, PartialEq)]
pub struct ConfigurationItem {
    pub key: String,
    pub value: String,
}

/// The key-to-value map described by a sequence of items; on a duplicated
/// key the later item wins.
pub open spec fn pairs_map(s: Seq<ConfigurationItem>) -> Map<Seq<char>, Seq<char>>
    decreases s.len(),
{
    if s.len() == 0 {
        Map::empty()
    } else {
        pairs_map(s.drop_last()).insert(s.last().key@, s.last().value@)
    }
}

/// True if no two items of `s` share a key.
pub open spec fn unique_keys(s: Seq<ConfigurationItem>) -> bool {
    forall|i: int, j: int| 0 <= i < j < s.len() ==> s[i].key@ != s[j].key@
}

/// `pairs_map` contains exactly the keys of the items.
pub proof fn lemma_pairs_map_contains(s: Seq<ConfigurationItem>, k: Seq<char>)
    ensures
        pairs_map(s).contains_key(k) <==> exists|i: int| 0 <= i < s.len() && s[i].key@ == k,
    decreases s.len(),
{
    if s.len() > 0 {
        lemma_pairs_map_contains(s.drop_last(), k);
        if s.last().key@ != k {
            if exists|i: int| 0 <= i < s.len() && s[i].key@ == k {
                let i = choose|i: int| 0 <= i < s.len() && s[i].key@ == k;
                assert(i < s.len() - 1 && s.drop_last()[i].key@ == k);
            }
        }
    }
}

/// Under unique keys, the map sends each item's key to that item's value.
pub proof fn lemma_pairs_map_get(s: Seq<ConfigurationItem>, j: int)
    requires
        unique_keys(s),
        0 <= j < s.len(),
    ensures
        pairs_map(s).contains_key(s[j].key@),
        pairs_map(s)[s[j].key@] == s[j].value@,
    decreases s.len(),
{
    lemma_pairs_map_contains(s, s[j].key@);
    if j < s.len() - 1 {
        assert(s[j].key@ != s.last().key@);
        assert(s.drop_last()[j] == s[j]);
        lemma_pairs_map_get(s.drop_last(), j);
    }
}

/// Replacing the item that holds a key updates the map at that key alone.
pub proof fn lemma_pairs_map_update(s: Seq<ConfigurationItem>, j: int, item: ConfigurationItem)
    requires
        unique_keys(s),
        0 <= j < s.len(),
        s[j].key@ == item.key@,
    ensures
        pairs_map(s.update(j, item)) == pairs_map(s).insert(item.key@, item.value@),
    decreases s.len(),
{
    let t = s.update(j, item);
    if j == s.len() - 1 {
        assert(t.drop_last() =~= s.drop_last());
        assert(t.last() == item);
        let lhs = pairs_map(s.drop_last()).insert(s.last().key@, s.last().value@).insert(
            item.key@,
            item.value@,
        );
        let rhs = pairs_map(s.drop_last()).insert(item.key@, item.value@);
        assert_maps_equal!(lhs, rhs);
    } else {
        assert(t.drop_last() =~= s.drop_last().update(j, item));
        assert(t.last() == s.last());
        assert(s.drop_last()[j] == s[j]);
        lemma_pairs_map_update(s.drop_last(), j, item);
        assert(s[j].key@ != s.last().key@);
        let lhs = pairs_map(s.drop_last()).insert(item.key@, item.value@).insert(
            s.last().key@,
            s.last().value@,
        );
        let rhs = pairs_map(s.drop_last()).insert(s.last().key@, s.last().value@).insert(
            item.key@,
            item.value@,
        );
        assert_maps_equal!(lhs, rhs);
    }
}

/// The tokens coerced to `true` by boolean coercion.
pub open spec fn spec_truthy(v: Seq<char>) -> bool {
    v == "1"@ || v == "true"@ || v == "yes"@ || v == "on"@
}

/// The tokens coerced to `false` by boolean coercion.
pub open spec fn spec_falsy(v: Seq<char>) -> bool {
    v == "0"@ || v == "false"@ || v == "no"@ || v == "off"@
}

impl ConfigurationItem {
    /// Creates an item from a key and an already-normalized value.
    pub fn new(key: String, value: String) -> (r: ConfigurationItem)
        ensures
            r.key@ == key@,
            r.value@ == value@,
    {
        ConfigurationItem { key, value }
    }

    /// Returns a copy of the raw value.
    pub fn get(&self) -> (r: String)
        ensures
            r@ == self.value@,
    {
        self.value.clone()
    }

    /// Returns the raw value as a string slice.
    pub fn as_str(&self) -> (r: &str)
        ensures
            r@ == self.value@,
    {
        self.value.as_str()
    }

    /// Coerces the value to a boolean: `1`, `true`, `yes`, `on` are true;
    /// `0`, `false`, `no`, `off` are false; anything else is an
    /// `InvalidBoolValue` error.
    pub fn as_bool(&self) -> (r: Result<bool, ConfigValueError>)
        ensures
            r == (if spec_truthy(self.value@) {
                Ok::<bool, ConfigValueError>(true)
            } else if spec_falsy(self.value@) {
                Ok::<bool, ConfigValueError>(false)
            } else {
                Err::<bool, ConfigValueError>(ConfigValueError::InvalidBoolValue)
            }),
    {
        let v = self.value.as_str();
        if str_eq(v, "1") || str_eq(v, "true") || str_eq(v, "yes") || str_eq(v, "on") {
            Ok(true)
        } else if str_eq(v, "0") || str_eq(v, "false") || str_eq(v, "no") || str_eq(v, "off") {
            Ok(false)
        } else {
            Err(ConfigValueError::InvalidBoolValue)
        }
    }

    /// Graceful variant of `as_bool`: an invalid token is read as `false`.
    pub fn as_bool_grf(&self) -> (r: bool)
        ensures
            r == spec_truthy(self.value@),
    {
        match self.as_bool() {
            Ok(b) => b,
            Err(_) => false,
        }
    }
}

impl Clone for ConfigurationItem {
    /// Copies the item; the copy holds the same key and value.
    fn clone(&self) -> (r: Self)
        ensures
            r.key@ == self.key@,
            r.value@ == self.value@,
    {
        ConfigurationItem { key: self.key.clone(), value: self.value.clone() }
    }
}

/// A named section of a configuration document: key/value items with
/// unique keys.
#[derive(Debug, PartialEq)]
pub struct Group {
    pub pairs: Vec<ConfigurationItem>,
}

impl View for Group {
    type V = Map<Seq<char>, Seq<char>>;

    open spec fn view(&self) -> Map<Seq<char>, Seq<char>> {
        pairs_map(self.pairs@)
    }
}

impl Group {
    /// Well-formed: no two items share a key.
    pub open spec fn wf(&self) -> bool {
        unique_keys(self.pairs@)
    }

    /// Creates an empty group.
    pub fn new() -> (r: Group)
        ensures
            r.wf(),
            r@ == Map::<Seq<char>, Seq<char>>::empty(),
    {
        Group { pairs: Vec::new() }
    }

    /// Index of the item holding `key`, if any.
    fn find(&self, key: &str) -> (r: Option<usize>)
        ensures
            match r {
                Some(j) => j < self.pairs@.len() && self.pairs@[j as int].key@ == key@,
                None => forall|i: int| 0 <= i < self.pairs@.len() ==> self.pairs@[i].key@ != key@,
            },
    {
        let mut i: usize = 0;
        let n = self.pairs.len();
        while i < n
            invariant
                0 <= i <= n,
                n == self.pairs@.len(),
                forall|j: int| 0 <= j < i ==> self.pairs@[j].key@ != key@,
            decreases n - i,
        {
            if str_eq(self.pairs[i].key.as_str(), key) {
                return Some(i);
            }
            i = i + 1;
        }
        None
    }

    /// Inserts an item, overwriting any earlier item with the same key.
    pub fn insert(&mut self, item: ConfigurationItem)
        requires
            old(self).wf(),
        ensures
            final(self).wf(),
            final(self)@ == old(self)@.insert(item.key@, item.value@),
    {
        match self.find(item.key.as_str()) {
            Some(j) => {
                proof {
                    lemma_pairs_map_update(self.pairs@, j as int, item);
                }
                self.pairs[j] = item;
            },
            None => {
                self.pairs.push(item);
                proof {
                    assert(self.pairs@.drop_last() =~= old(self).pairs@);
                }
            },
        }
    }

    /// True if the group holds an item for `key`.
    pub fn has(&self, key: &str) -> (r: bool)
        ensures
            r == self@.contains_key(key@),
    {
        proof {
            lemma_pairs_map_contains(self.pairs@, key@);
        }
        match self.find(key) {
            Some(_) => true,
            None => false,
        }
    }

    /// The item stored under `key`, or `None` if the key is absent.
    pub fn get(&self, key: &str) -> (r: Option<ConfigurationItem>)
        requires
            self.wf(),
        ensures
            r matches Some(item) ==> {
                &&& self@.contains_key(key@)
                &&& item.key@ == key@
                &&& item.value@ == self@[key@]
            },
            r is None <==> !self@.contains_key(key@),
    {
        proof {
            lemma_pairs_map_contains(self.pairs@, key@);
        }
        match self.find(key) {
            Some(j) => {
                proof {
                    lemma_pairs_map_get(self.pairs@, j as int);
                }
                Some(self.pairs[j].clone())
            },
            None => None,
        }
    }

    /// The value stored under `key`, or the literal fallback if absent.
    pub fn get_or(&self, key: &str, fallback: &str) -> (r: String)
        requires
            self.wf(),
        ensures
            r@ == (if self@.contains_key(key@) {
                self@[key@]
            } else {
                fallback@
            }),
    {
        match self.get(key) {
            Some(item) => item.value,
            None => fallback.to_owned(),
        }
    }

    /// The keys of the group, in storage order.
    pub fn keys(&self) -> (r: Vec<String>)
        ensures
            r@.len() == self.pairs@.len(),
            forall|i: int| 0 <= i < r@.len() ==> r@[i]@ == self.pairs@[i].key@,
    {
        let mut out: Vec<String> = Vec::new();
        let mut i: usize = 0;
        let n = self.pairs.len();
        while i < n
            invariant
                0 <= i <= n,
                n == self.pairs@.len(),
                out@.len() == i,
                forall|j: int| 0 <= j < i ==> out@[j]@ == self.pairs@[j].key@,
            decreases n - i,
        {
            out.push(self.pairs[i].key.clone());
            i = i + 1;
        }
        out
    }

    /// Calls `closure` on each item of the group.
    pub fn for_each<F: Fn(&ConfigurationItem)>(&self, closure: F)
        requires
            forall|item: &ConfigurationItem| call_requires(closure, (item,)),
    {
        let mut i: usize = 0;
        let n = self.pairs.len();
        while i < n
            invariant
                0 <= i <= n,
                n == self.pairs@.len(),
                forall|item: &ConfigurationItem| call_requires(closure, (item,)),
            decreases n - i,
        {
            closure(&self.pairs[i]);
            i = i + 1;
        }
    }
}

impl Clone for Group {
    /// Copies the group; the copy holds the same items in the same order.
    fn clone(&self) -> (r: Self)
        ensures
            r.pairs@.len() == self.pairs@.len(),
            forall|i: int| 0 <= i < r.pairs@.len() ==> {
                &&& r.pairs@[i].key@ == self.pairs@[i].key@
                &&& r.pairs@[i].value@ == self.pairs@[i].value@
            },
            self.wf() ==> r.wf() && r@ == self@,
    {
        let mut pairs: Vec<ConfigurationItem> = Vec::new();
        let mut i: usize = 0;
        let n = self.pairs.len();
        while i < n
            invariant
                0 <= i <= n,
                n == self.pairs@.len(),
                pairs@.len() == i,
                forall|j: int| 0 <= j < i ==> {
                    &&& pairs@[j].key@ == self.pairs@[j].key@
                    &&& pairs@[j].value@ == self.pairs@[j].value@
                },
            decreases n - i,
        {
            pairs.push(self.pairs[i].clone());
            i = i + 1;
        }
        let r = Group { pairs };
        proof {
            if self.wf() {
                lemma_pairs_map_congruent(r.pairs@, self.pairs@);
            }
        }
        r
    }
}

/// Two item sequences with pairwise equal keys and values describe the
/// same map.
proof fn lemma_pairs_map_congruent(a: Seq<ConfigurationItem>, b: Seq<ConfigurationItem>)
    requires
        a.len() == b.len(),
        forall|i: int| 0 <= i < a.len() ==> a[i].key@ == b[i].key@ && a[i].value@ == b[i].value@,
    ensures
        pairs_map(a) == pairs_map(b),
    decreases a.len(),
{
    if a.len() > 0 {
        lemma_pairs_map_congruent(a.drop_last(), b.drop_last());
    }
}

} // verus!
