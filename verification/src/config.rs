//! The top-level configuration: named groups with unique names, plus the
//! builder's cursor naming the most recently opened group.
//!
//! A `Config` is viewed abstractly as a map from group names to key/value
//! maps.  The cursor only matters while a document is being built; readers
//! should not rely on it once parsing is done.

use vstd::map::*;
use vstd::prelude::*;

use crate::errors::ConfigReadError;
use crate::group::{ConfigurationItem, Group};
use crate::text::str_eq;

verus! {

/// One named group held by a `Config`.
#[derive(Debug, PartialEq)]
pub struct GroupEntry {
    pub name: String,
    pub group: Group,
}

/// The name-to-contents map described by a sequence of group entries; on a
/// duplicated name the later entry wins.
pub open spec fn groups_map(s: Seq<GroupEntry>) -> Map<Seq<char>, Map<Seq<char>, Seq<char>>>
    decreases s.len(),
{
    if s.len() == 0 {
        Map::empty()
    } else {
        groups_map(s.drop_last()).insert(s.last().name@, s.last().group@)
    }
}

/// True if no two entries of `s` share a name.
pub open spec fn unique_names(s: Seq<GroupEntry>) -> bool {
    forall|i: int, j: int| 0 <= i < j < s.len() ==> s[i].name@ != s[j].name@
}

/// `groups_map` contains exactly the names of the entries.
proof fn lemma_groups_map_contains(s: Seq<GroupEntry>, k: Seq<char>)
    ensures
        groups_map(s).contains_key(k) <==> exists|i: int| 0 <= i < s.len() && s[i].name@ == k,
    decreases s.len(),
{
    if s.len() > 0 {
        lemma_groups_map_contains(s.drop_last(), k);
        if s.last().name@ != k {
            if exists|i: int| 0 <= i < s.len() && s[i].name@ == k {
                let i = choose|i: int| 0 <= i < s.len() && s[i].name@ == k;
                assert(i < s.len() - 1 && s.drop_last()[i].name@ == k);
            }
        }
    }
}

/// Under unique names, the map sends each entry's name to that entry's
/// group contents.
proof fn lemma_groups_map_get(s: Seq<GroupEntry>, j: int)
    requires
        unique_names(s),
        0 <= j < s.len(),
    ensures
        groups_map(s).contains_key(s[j].name@),
        groups_map(s)[s[j].name@] == s[j].group@,
    decreases s.len(),
{
    lemma_groups_map_contains(s, s[j].name@);
    if j < s.len() - 1 {
        assert(s[j].name@ != s.last().name@);
        assert(s.drop_last()[j] == s[j]);
        lemma_groups_map_get(s.drop_last(), j);
    }
}

/// Replacing the entry that holds a name updates the map at that name alone.
proof fn lemma_groups_map_update(s: Seq<GroupEntry>, j: int, entry: GroupEntry)
    requires
        unique_names(s),
        0 <= j < s.len(),
        s[j].name@ == entry.name@,
    ensures
        groups_map(s.update(j, entry)) == groups_map(s).insert(entry.name@, entry.group@),
    decreases s.len(),
{
    let t = s.update(j, entry);
    if j == s.len() - 1 {
        assert(t.drop_last() =~= s.drop_last());
        assert(t.last() == entry);
        let lhs = groups_map(s.drop_last()).insert(s.last().name@, s.last().group@).insert(
            entry.name@,
            entry.group@,
        );
        let rhs = groups_map(s.drop_last()).insert(entry.name@, entry.group@);
        assert_maps_equal!(lhs, rhs);
    } else {
        assert(t.drop_last() =~= s.drop_last().update(j, entry));
        assert(t.last() == s.last());
        assert(s.drop_last()[j] == s[j]);
        lemma_groups_map_update(s.drop_last(), j, entry);
        assert(s[j].name@ != s.last().name@);
        let lhs = groups_map(s.drop_last()).insert(entry.name@, entry.group@).insert(
            s.last().name@,
            s.last().group@,
        );
        let rhs = groups_map(s.drop_last()).insert(s.last().name@, s.last().group@).insert(
            entry.name@,
            entry.group@,
        );
        assert_maps_equal!(lhs, rhs);
    }
}

/// The parsed form of a configuration document.
#[derive(Debug, PartialEq)]
pub struct Config {
    pub entries: Vec<GroupEntry>,
    pub cursor: Option<String>,
}

impl View for Config {
    type V = Map<Seq<char>, Map<Seq<char>, Seq<char>>>;

    open spec fn view(&self) -> Map<Seq<char>, Map<Seq<char>, Seq<char>>> {
        groups_map(self.entries@)
    }
}

impl Config {
    /// Well-formed: group names are unique, every group is well-formed, and
    /// the cursor (when set) names an existing group.
    pub open spec fn wf(&self) -> bool {
        &&& unique_names(self.entries@)
        &&& forall|i: int| 0 <= i < self.entries@.len() ==> (#[trigger] self.entries@[i]).group.wf()
        &&& match self.cursor {
            Some(n) => exists|i: int|
                0 <= i < self.entries@.len() && (#[trigger] self.entries@[i]).name@ == n@,
            None => true,
        }
    }

    /// The name of the most recently opened group, if any.
    pub open spec fn cursor_name(&self) -> Option<Seq<char>> {
        match self.cursor {
            Some(n) => Some(n@),
            None => None,
        }
    }

    /// Creates a configuration with no groups.
    pub fn new() -> (r: Config)
        ensures
            r.wf(),
            r@ == Map::<Seq<char>, Map<Seq<char>, Seq<char>>>::empty(),
            r.cursor_name() is None,
    {
        Config { entries: Vec::new(), cursor: None }
    }

    /// Index of the entry holding `name`, if any.
    fn find(&self, name: &str) -> (r: Option<usize>)
        ensures
            match r {
                Some(j) => j < self.entries@.len() && self.entries@[j as int].name@ == name@,
                None => forall|i: int|
                    0 <= i < self.entries@.len() ==> self.entries@[i].name@ != name@,
            },
    {
        let mut i: usize = 0;
        let n = self.entries.len();
        while i < n
            invariant
                0 <= i <= n,
                n == self.entries@.len(),
                forall|j: int| 0 <= j < i ==> self.entries@[j].name@ != name@,
            decreases n - i,
        {
            if str_eq(self.entries[i].name.as_str(), name) {
                return Some(i);
            }
            i = i + 1;
        }
        None
    }

    /// True if a group of that name exists.
    pub fn has_group(&self, group: &str) -> (r: bool)
        ensures
            r == self@.contains_key(group@),
    {
        proof {
            lemma_groups_map_contains(self.entries@, group@);
        }
        match self.find(group) {
            Some(_) => true,
            None => false,
        }
    }

    /// A copy of the named group, or `None` if no group has that name.
    pub fn group(&self, group: &str) -> (r: Option<Group>)
        requires
            self.wf(),
        ensures
            r matches Some(g) ==> {
                &&& self@.contains_key(group@)
                &&& g.wf()
                &&& g@ == self@[group@]
            },
            r is None <==> !self@.contains_key(group@),
    {
        proof {
            lemma_groups_map_contains(self.entries@, group@);
        }
        match self.find(group) {
            Some(j) => {
                proof {
                    lemma_groups_map_get(self.entries@, j as int);
                }
                Some(self.entries[j].group.clone())
            },
            None => None,
        }
    }

    /// The names of all groups, in storage order.
    pub fn groups(&self) -> (r: Vec<String>)
        ensures
            r@.len() == self.entries@.len(),
            forall|i: int| 0 <= i < r@.len() ==> r@[i]@ == self.entries@[i].name@,
    {
        let mut out: Vec<String> = Vec::new();
        let mut i: usize = 0;
        let n = self.entries.len();
        while i < n
            invariant
                0 <= i <= n,
                n == self.entries@.len(),
                out@.len() == i,
                forall|j: int| 0 <= j < i ==> out@[j]@ == self.entries@[j].name@,
            decreases n - i,
        {
            out.push(self.entries[i].name.clone());
            i = i + 1;
        }
        out
    }

    /// Opens a group of that name (emptying an existing one) and points the
    /// cursor at it.
    pub fn add_group(&mut self, name: String)
        requires
            old(self).wf(),
        ensures
            final(self).wf(),
            final(self)@ == old(self)@.insert(name@, Map::<Seq<char>, Seq<char>>::empty()),
            final(self).cursor_name() == Some(name@),
    {
        let cursor_copy = name.clone();
        let ghost mut w: int = 0;
        match self.find(name.as_str()) {
            Some(j) => {
                let ghost entries0 = self.entries@;
                let entry = GroupEntry { name, group: Group::new() };
                proof {
                    lemma_groups_map_update(entries0, j as int, entry);
                }
                self.entries[j] = entry;
                proof {
                    assert forall|i: int|
                        0 <= i < self.entries@.len() implies (
                    #[trigger] self.entries@[i]).group.wf() by {
                        if i != j as int {
                            assert(self.entries@[i] == entries0[i]);
                        }
                    }
                    assert(forall|i: int|
                        0 <= i < self.entries@.len() ==> (#[trigger] self.entries@[i]).name@
                            == entries0[i].name@);
                    assert(self.entries@[j as int].name@ == cursor_copy@);
                    w = j as int;
                }
            },
            None => {
                let ghost entries0 = self.entries@;
                self.entries.push(GroupEntry { name, group: Group::new() });
                proof {
                    assert(self.entries@.drop_last() =~= entries0);
                    assert forall|i: int|
                        0 <= i < self.entries@.len() implies (
                    #[trigger] self.entries@[i]).group.wf() by {
                        if i < entries0.len() {
                            assert(self.entries@[i] == entries0[i]);
                        }
                    }
                    assert(self.entries@[self.entries@.len() - 1].name@ == cursor_copy@);
                    w = self.entries@.len() - 1;
                }
            },
        }
        self.cursor = Some(cursor_copy);
        proof {
            assert(0 <= w < self.entries@.len() && self.entries@[w].name@ == cursor_copy@);
            assert(self.wf());
        }
    }

    /// Inserts an item into the group the cursor points at, overwriting any
    /// earlier item with the same key.  With no group opened yet the item is
    /// dropped.
    pub fn insert(&mut self, val: ConfigurationItem)
        requires
            old(self).wf(),
        ensures
            final(self).wf(),
            final(self).cursor_name() == old(self).cursor_name(),
            match old(self).cursor_name() {
                Some(g) => final(self)@ == old(self)@.insert(
                    g,
                    old(self)@[g].insert(val.key@, val.value@),
                ),
                None => final(self)@ == old(self)@,
            },
    {
        let name = match &self.cursor {
            Some(n) => n.clone(),
            None => { return; },
        };
        match self.find(name.as_str()) {
            Some(j) => {
                let ghost entries0 = self.entries@;
                proof {
                    lemma_groups_map_get(entries0, j as int);
                }
                let e = self.entries.remove(j);
                let GroupEntry { name: ename, group: mut egroup } = e;
                egroup.insert(val);
                let entry = GroupEntry { name: ename, group: egroup };
                self.entries.insert(j, entry);
                proof {
                    assert(self.entries@ =~= entries0.update(j as int, entry));
                    lemma_groups_map_update(entries0, j as int, entry);
                    assert forall|i: int|
                        0 <= i < self.entries@.len() implies (
                    #[trigger] self.entries@[i]).group.wf() by {
                        if i != j as int {
                            assert(self.entries@[i] == entries0[i]);
                        }
                    }
                    assert(entry.name@ == entries0[j as int].name@);
                    assert(forall|i: int|
                        0 <= i < self.entries@.len() ==> (#[trigger] self.entries@[i]).name@
                            == entries0[i].name@);
                    match &self.cursor {
                        Some(n) => {
                            let i = choose|i: int|
                                0 <= i < entries0.len() && entries0[i].name@ == n@;
                            assert(self.entries@[i].name@ == n@);
                        },
                        None => {},
                    }
                    assert(self.wf());
                }
            },
            None => {
                // the cursor always names an existing group
                proof {
                    assert(false);
                }
            },
        }
    }

    /// Calls `closure` on each group name and group.
    pub fn for_each_group<F: Fn(&str, &Group)>(&self, closure: F)
        requires
            forall|name: &str, group: &Group| call_requires(closure, (name, group)),
    {
        let mut i: usize = 0;
        let n = self.entries.len();
        while i < n
            invariant
                0 <= i <= n,
                n == self.entries@.len(),
                forall|name: &str, group: &Group| call_requires(closure, (name, group)),
            decreases n - i,
        {
            closure(self.entries[i].name.as_str(), &self.entries[i].group);
            i = i + 1;
        }
    }

    /// Two-level lookup: the value stored under `key` in group `group`.
    pub fn get(&self, group: &str, key: &str) -> (r: Result<String, ConfigReadError>)
        requires
            self.wf(),
        ensures
            !self@.contains_key(group@) ==> r == Err::<String, ConfigReadError>(
                ConfigReadError::GroupNotFound,
            ),
            self@.contains_key(group@) && !self@[group@].contains_key(key@) ==> r == Err::<
                String,
                ConfigReadError,
            >(ConfigReadError::KeyInGroupNotFound),
            self@.contains_key(group@) && self@[group@].contains_key(key@) ==> (r matches Ok(v)
                && v@ == self@[group@][key@]),
    {
        proof {
            lemma_groups_map_contains(self.entries@, group@);
        }
        match self.find(group) {
            Some(j) => {
                proof {
                    lemma_groups_map_get(self.entries@, j as int);
                }
                match self.entries[j].group.get(key) {
                    Some(item) => Ok(item.value),
                    None => Err(ConfigReadError::KeyInGroupNotFound),
                }
            },
            None => Err(ConfigReadError::GroupNotFound),
        }
    }
}

} // verus!
