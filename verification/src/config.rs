//! The configuration index: named profiles, each resolving to a file path
//! owned by the store.
//!
//! Only the bookkeeping lives here — which entries exist, what may be
//! added or removed, where an entry's file lives. Reading, writing and
//! copying the files themselves is the surrounding process's work.

use vstd::prelude::*;
use vstd::string::StringExecFns;

verus! {

/// Directory under which profile files and the index live.
pub const CONFIGS_PATH: &'static str = "/etc/ovpnd/configs";

/// One profile of the store: a user-chosen name and the identifier under
/// which its file is kept.
#[derive(Debug)]
pub struct ConfigEntry {
    pub name: String,
    pub guid: String,
}

/// Two entries carrying the same name and identifier.
pub open spec fn entry_like(a: ConfigEntry, b: ConfigEntry) -> bool {
    a.name@ == b.name@ && a.guid@ == b.guid@
}

impl Clone for ConfigEntry {
    /// A copy carrying the same name and identifier.
    fn clone(&self) -> (r: Self)
        ensures
            entry_like(r, *self),
    {
        ConfigEntry { name: self.name.clone(), guid: self.guid.clone() }
    }
}

/// Index of the first entry named `name`, if any.
pub open spec fn find_named(s: Seq<ConfigEntry>, name: Seq<char>) -> Option<int>
    decreases s.len(),
{
    if s.len() == 0 {
        None
    } else if s[0].name@ == name {
        Some(0int)
    } else {
        match find_named(s.drop_first(), name) {
            Some(i) => Some(i + 1),
            None => None,
        }
    }
}

/// Some entry of `s` is named `name`.
pub open spec fn has_named(s: Seq<ConfigEntry>, name: Seq<char>) -> bool {
    find_named(s, name) is Some
}

/// `find_named` returns the least index whose entry is named `name`, or
/// `None` when no entry is.
pub proof fn lemma_find_named(s: Seq<ConfigEntry>, name: Seq<char>)
    ensures
        find_named(s, name) is None ==> forall|i: int|
            0 <= i < s.len() ==> s[i].name@ != name,
        find_named(s, name) matches Some(i) ==> 0 <= i < s.len() && s[i].name@ == name
            && forall|k: int| 0 <= k < i ==> s[k].name@ != name,
    decreases s.len(),
{
    if s.len() > 0 && s[0].name@ != name {
        let t = s.drop_first();
        lemma_find_named(t, name);
        if find_named(t, name) is None {
            assert forall|i: int| 0 <= i < s.len() implies s[i].name@ != name by {
                if i > 0 {
                    assert(t[i - 1] == s[i]);
                }
            }
        } else {
            let j = find_named(t, name)->Some_0;
            assert(s[j + 1] == t[j]);
            assert forall|k: int| 0 <= k < j + 1 implies s[k].name@ != name by {
                if k > 0 {
                    assert(t[k - 1] == s[k]);
                }
            }
        }
    }
}

/// What can go wrong with an index operation.
#[derive(Debug, Clone, Copy, PartialEq, Eq, Structural)]
pub enum ConfigError {
    /// An entry with the requested name already exists.
    DuplicateName,
    /// No entry with the requested name exists.
    NotFound,
}

impl ConfigError {
    /// The text under which this error reaches a client.
    pub fn message(&self) -> (r: String)
        ensures
            *self == ConfigError::DuplicateName ==> r@
                == "A configuration with the same name already exists."@,
            *self == ConfigError::NotFound ==> r@
                == "The specified configuration cannot be found."@,
    {
        match self {
            ConfigError::DuplicateName => "A configuration with the same name already exists."
                .to_owned(),
            ConfigError::NotFound => "The specified configuration cannot be found.".to_owned(),
        }
    }
}

/// The index of the store: the profiles, in the order they were imported.
#[derive(Debug)]
pub struct ConfigIndex {
    pub entries: Vec<ConfigEntry>,
}

impl ConfigIndex {
    /// An index with no entries.
    pub fn empty() -> (r: ConfigIndex)
        ensures
            r.entries@.len() == 0,
    {
        ConfigIndex { entries: Vec::new() }
    }

    /// The entries, in order.
    pub fn get_entries(&self) -> (r: &Vec<ConfigEntry>)
        ensures
            r == &self.entries,
    {
        &self.entries
    }

    /// The entries, for the store to rebuild or rewrite.
    pub fn get_entries_mut(&mut self) -> (r: &mut Vec<ConfigEntry>)
        ensures
            *r == old(self).entries,
            final(self).entries == *final(r),
    {
        &mut self.entries
    }
}

/// Relies on uuid's `Uuid::new_v4` and its hyphenated rendering: a freshly
/// drawn random identifier, so nothing is promised of the value.
#[verifier::external_body]
fn fresh_guid() -> String {
    uuid::Uuid::new_v4().to_string()
}

/// The in-memory side of the configuration store.
#[derive(Debug)]
pub struct ConfigManager {
    pub index: ConfigIndex,
}

impl ConfigManager {
    /// The index as loaded or built so far.
    pub fn get_index(&self) -> (r: &ConfigIndex)
        ensures
            r == &self.index,
    {
        &self.index
    }

    /// The path under which an entry's profile file lives:
    /// `<configs dir>/<guid>.conf`.
    pub fn get_config_path(entry: &ConfigEntry) -> (r: String)
        ensures
            r@ == CONFIGS_PATH@ + "/"@ + entry.guid@ + ".conf"@,
    {
        let mut r = CONFIGS_PATH.to_owned();
        r.append("/");
        r.append(entry.guid.as_str());
        r.append(".conf");
        r
    }

    /// The first entry named `name`, copied out, if there is one.
    pub fn get_by_name(&self, name: &String) -> (r: Option<ConfigEntry>)
        ensures
            match r {
                Some(e) => find_named(self.index.entries@, name@) matches Some(i) && entry_like(
                    e,
                    self.index.entries@[i],
                ),
                None => !has_named(self.index.entries@, name@),
            },
    {
        let ghost s = self.index.entries@;
        let n = self.index.entries.len();
        let mut i: usize = 0;
        while i < n
            invariant
                i <= n,
                n == s.len(),
                s == self.index.entries@,
                forall|k: int| 0 <= k < i ==> s[k].name@ != name@,
            decreases n - i,
        {
            if self.index.entries[i].name.eq(name) {
                proof {
                    lemma_find_named(s, name@);
                    if find_named(s, name@) is None {
                        assert(false);
                    }
                    let j = find_named(s, name@)->Some_0;
                    assert(j <= i);
                    assert(j == i);
                }
                return Some(self.index.entries[i].clone());
            }
            i = i + 1;
        }
        proof {
            lemma_find_named(s, name@);
            match find_named(s, name@) {
                Some(j) => {
                    assert(s[j].name@ == name@);
                    assert(false);
                },
                None => {},
            }
        }
        None
    }

    /// Registers a freshly imported profile under `name`, drawing a new
    /// identifier for its file. Refused when the name is already taken;
    /// the index is then unchanged.
    pub fn import_entry(&mut self, name: String) -> (r: Result<ConfigEntry, ConfigError>)
        ensures
            match r {
                Ok(e) => {
                    &&& !has_named(old(self).index.entries@, name@)
                    &&& e.name@ == name@
                    &&& final(self).index.entries@.len() == old(self).index.entries@.len() + 1
                    &&& forall|k: int|
                        0 <= k < old(self).index.entries@.len() ==> final(self).index.entries@[k]
                            == old(self).index.entries@[k]
                    &&& entry_like(final(self).index.entries@.last(), e)
                },
                Err(e) => {
                    &&& e == ConfigError::DuplicateName
                    &&& has_named(old(self).index.entries@, name@)
                    &&& *final(self) == *old(self)
                },
            },
    {
        if self.get_by_name(&name).is_some() {
            proof {
                lemma_find_named(self.index.entries@, name@);
            }
            return Err(ConfigError::DuplicateName);
        }
        let guid = fresh_guid();
        let entry = ConfigEntry { name, guid };
        let copy = entry.clone();
        self.index.entries.push(entry);
        Ok(copy)
    }

    /// Removes the first entry named `name`, handing it back so the store
    /// can delete its file. Refused when no entry carries the name; the
    /// index is then unchanged.
    pub fn delete_entry(&mut self, name: &String) -> (r: Result<ConfigEntry, ConfigError>)
        ensures
            match r {
                Ok(e) => {
                    &&& find_named(old(self).index.entries@, name@) matches Some(i) && entry_like(
                        e,
                        old(self).index.entries@[i],
                    ) && final(self).index.entries@ == old(self).index.entries@.remove(i)
                },
                Err(err) => {
                    &&& err == ConfigError::NotFound
                    &&& !has_named(old(self).index.entries@, name@)
                    &&& *final(self) == *old(self)
                },
            },
    {
        let ghost s = self.index.entries@;
        let n = self.index.entries.len();
        let mut i: usize = 0;
        while i < n
            invariant
                i <= n,
                n == s.len(),
                s == self.index.entries@,
                *self == *old(self),
                forall|k: int| 0 <= k < i ==> s[k].name@ != name@,
            decreases n - i,
        {
            if self.index.entries[i].name.eq(name) {
                proof {
                    lemma_find_named(s, name@);
                    if find_named(s, name@) is None {
                        assert(false);
                    }
                    let j = find_named(s, name@)->Some_0;
                    assert(j <= i);
                    assert(j == i);
                }
                let e = self.index.entries.remove(i);
                return Ok(e);
            }
            i = i + 1;
        }
        proof {
            lemma_find_named(s, name@);
            match find_named(s, name@) {
                Some(j) => {
                    assert(s[j].name@ == name@);
                    assert(false);
                },
                None => {},
            }
        }
        Err(ConfigError::NotFound)
    }
}

} // verus!
