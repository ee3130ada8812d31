//! The list of named manifests.

use crate::text::{concat, join_path, path_join};
use vstd::prelude::*;

verus! {

/// A named manifest and where it is kept.
#[derive(Debug, Clone)]
pub struct Config {
    pub id: String,
    pub name: String,
    pub path: String,
}

/// The mathematical value of a [`Config`].
pub struct ConfigView {
    pub id: Seq<char>,
    pub name: Seq<char>,
    pub path: Seq<char>,
}

impl View for Config {
    type V = ConfigView;

    open spec fn view(&self) -> ConfigView {
        ConfigView { id: self.id@, name: self.name@, path: self.path@ }
    }
}

/// The views of a sequence of entries, entry by entry.
pub open spec fn config_views(s: Seq<Config>) -> Seq<ConfigView> {
    s.map_values(|c: Config| c@)
}

/// Under which id and name a manifest is to be saved.
#[derive(Debug, Clone)]
pub struct SaveConfigParam {
    /// The id of the manifest to replace; `None` for a new one.
    pub id: Option<String>,
    pub name: String,
}

/// `index` is where the first entry with the id `id` stands.
pub open spec fn first_index(configs: Seq<ConfigView>, id: Seq<char>, index: int) -> bool {
    &&& 0 <= index < configs.len()
    &&& configs[index].id == id
    &&& forall|j: int| 0 <= j < index ==> (#[trigger] configs[j]).id != id
}

/// No entry has the id `id`.
pub open spec fn unknown(configs: Seq<ConfigView>, id: Seq<char>) -> bool {
    forall|j: int| 0 <= j < configs.len() ==> (#[trigger] configs[j]).id != id
}

/// The file in which the manifest with the id `id` is kept.
pub open spec fn config_file(dir: Seq<char>, id: Seq<char>) -> Seq<char> {
    path_join(dir, id + ".json"@)
}

/// The id under which a manifest is saved: the one given, or the fresh one.
pub open spec fn chosen_id(given: Option<String>, fresh: Seq<char>) -> Seq<char> {
    match given {
        Some(id) => id@,
        None => fresh,
    }
}

/// The number of characters of an id made for a new manifest.
pub const ID_SIZE: usize = 10;

/// A character of which ids are made: a letter, a digit, `_` or `-`.
pub open spec fn is_id_char(c: char) -> bool {
    ||| 'a' <= c <= 'z'
    ||| 'A' <= c <= 'Z'
    ||| '0' <= c <= '9'
    ||| c == '_'
    ||| c == '-'
}

/// `id` can be an id made for a new manifest: `size` characters of the kind
/// that ids are made of.
pub open spec fn is_made_id(id: Seq<char>, size: nat) -> bool {
    id.len() == size && forall|i: int| 0 <= i < id.len() ==> is_id_char(#[trigger] id[i])
}

/// The `nanoid` crate's `format`, with the crate's default source of
/// randomness and its alphabet `SAFE` of letters, digits, `_` and `-`: a
/// text of `size` characters of that alphabet, drawn at random. Which
/// characters come no contract says, and two calls may differ. A size of
/// zero, with which `format` would not return, is left out.
#[verifier::external_body]
fn random_id(size: usize) -> (r: String)
    requires
        0 < size <= 255,
    ensures
        is_made_id(r@, size as nat),
{
    nanoid::format(nanoid::rngs::default, &nanoid::alphabet::SAFE, size)
}

/// The list of named manifests of one installation.
#[derive(Debug)]
pub struct ConfigManager {
    config_dir: String,
    configs: Vec<Config>,
    repo: String,
}

impl ConfigManager {
    /// The entries, in order.
    pub closed spec fn entries(&self) -> Seq<ConfigView> {
        config_views(self.configs@)
    }

    /// The directory of the manifests.
    pub closed spec fn directory(&self) -> Seq<char> {
        self.config_dir@
    }

    /// The file of the list.
    pub closed spec fn repository(&self) -> Seq<char> {
        self.repo@
    }

    /// The list under `root`, holding `configs` as read from its file.
    pub fn new(root: &str, configs: Vec<Config>) -> (r: Self)
        ensures
            r.entries() == config_views(configs@),
            r.directory() == path_join(root@, "config"@),
            r.repository() == path_join(root@, "config_repo.json"@),
    {
        ConfigManager {
            repo: join_path(root, "config_repo.json"),
            config_dir: join_path(root, "config"),
            configs,
        }
    }

    /// The file of the list.
    pub fn repo(&self) -> (r: &String)
        ensures
            r@ == self.repository(),
    {
        &self.repo
    }

    /// The directory of the manifests.
    pub fn config_dir(&self) -> (r: &String)
        ensures
            r@ == self.directory(),
    {
        &self.config_dir
    }

    /// A copy of the entries.
    pub fn list_configs(&self) -> (r: Vec<Config>)
        ensures
            config_views(r@) == self.entries(),
    {
        let mut r: Vec<Config> = Vec::new();
        let n = self.configs.len();
        let mut i: usize = 0;
        while i < n
            invariant
                n == self.configs@.len(),
                i <= n,
                r@.len() == i,
                forall|k: int| 0 <= k < i ==> (#[trigger] r@[k])@ == self.configs@[k]@,
            decreases n - i,
        {
            let c = &self.configs[i];
            r.push(Config { id: c.id.clone(), name: c.name.clone(), path: c.path.clone() });
            i = i + 1;
        }
        assert(config_views(r@) =~= self.entries());
        r
    }

    /// Where the first entry with the id `id` stands.
    pub fn find_config_index(&self, id: &String) -> (r: Option<usize>)
        ensures
            match r {
                Some(index) => first_index(self.entries(), id@, index as int),
                None => unknown(self.entries(), id@),
            },
    {
        let n = self.configs.len();
        let mut i: usize = 0;
        while i < n
            invariant
                n == self.configs@.len(),
                i <= n,
                forall|j: int| 0 <= j < i ==> (#[trigger] self.entries()[j]).id != id@,
            decreases n - i,
        {
            if self.configs[i].id == *id {
                assert(self.entries()[i as int].id == id@);
                return Some(i);
            }
            i = i + 1;
        }
        None
    }

    /// Enters a manifest into the list: under the id given, or under an id
    /// made at random for it. The entry with that id gets the new name;
    /// where there is none, a new entry comes at the end, kept in the file
    /// named after the id. Returns the id and the file to write the manifest
    /// to.
    pub fn save_config(&mut self, config: &SaveConfigParam) -> (r: (String, String))
        ensures
            final(self).directory() == old(self).directory(),
            final(self).repository() == old(self).repository(),
            match config.id {
                Some(id) => r.0@ == id@,
                None => is_made_id(r.0@, ID_SIZE as nat),
            },
            r.1@ == config_file(old(self).directory(), r.0@),
            forall|index: int|
                first_index(old(self).entries(), r.0@, index) ==> final(self).entries() == old(
                    self,
                ).entries().update(
                    index,
                    ConfigView { name: config.name@, ..old(self).entries()[index] },
                ),
            unknown(old(self).entries(), r.0@) ==> final(self).entries() == old(
                self,
            ).entries().push(ConfigView { id: r.0@, name: config.name@, path: r.1@ }),
    {
        match &config.id {
            Some(_) => self.save_config_as(config, ""),
            None => {
                let fresh = random_id(ID_SIZE);
                self.save_config_as(config, fresh.as_str())
            },
        }
    }

    /// Enters a manifest into the list: under the id given, whose entry
    /// gets the new name, or under the id `fresh` as a new entry at the
    /// end, kept in the file named after the id. Returns the id and the
    /// file to write the manifest to.
    pub fn save_config_as(&mut self, config: &SaveConfigParam, fresh: &str) -> (r: (
        String,
        String,
    ))
        ensures
            final(self).directory() == old(self).directory(),
            final(self).repository() == old(self).repository(),
            r.0@ == chosen_id(config.id, fresh@),
            r.1@ == config_file(old(self).directory(), r.0@),
            forall|index: int|
                first_index(old(self).entries(), r.0@, index) ==> final(self).entries() == old(
                    self,
                ).entries().update(
                    index,
                    ConfigView { name: config.name@, ..old(self).entries()[index] },
                ),
            unknown(old(self).entries(), r.0@) ==> final(self).entries() == old(
                self,
            ).entries().push(ConfigView { id: r.0@, name: config.name@, path: r.1@ }),
    {
        let id = match &config.id {
            Some(id) => id.clone(),
            None => String::from_str(fresh),
        };
        let file_name = concat(id.as_str(), ".json");
        let config_file = join_path(self.config_dir.as_str(), file_name.as_str());
        match self.find_config_index(&id) {
            Some(index) => {
                let c = &mut self.configs[index];
                c.name = config.name.clone();
                proof {
                    assert(self.entries() =~= old(self).entries().update(
                        index as int,
                        ConfigView { name: config.name@, ..old(self).entries()[index as int] },
                    ));
                    assert forall|other: int|
                        first_index(old(self).entries(), id@, other) implies other == index by {
                        if other < index {
                            assert(old(self).entries()[other].id != id@);
                        }
                    }
                }
            },
            None => {
                self.configs.push(
                    Config { id: id.clone(), name: config.name.clone(), path: config_file.clone() },
                );
                proof {
                    assert(self.entries() =~= old(self).entries().push(
                        ConfigView { id: id@, name: config.name@, path: config_file@ },
                    ));
                    assert forall|other: int| !first_index(old(self).entries(), id@, other) by {
                        if 0 <= other < old(self).entries().len() {
                            assert(old(self).entries()[other].id != id@);
                        }
                    }
                }
            },
        }
        (id, config_file)
    }

    /// Takes the first entry with the id `id` out of the list, the last
    /// entry taking its place, and returns the file to remove; `None`, and
    /// no change, where there is no such entry.
    pub fn remove_config(&mut self, id: &String) -> (r: Option<String>)
        ensures
            final(self).directory() == old(self).directory(),
            final(self).repository() == old(self).repository(),
            match r {
                Some(file) => {
                    &&& file@ == config_file(old(self).directory(), id@)
                    &&& exists|index: int|
                        first_index(old(self).entries(), id@, index) && final(self).entries()
                            == old(self).entries().update(
                            index,
                            old(self).entries().last(),
                        ).drop_last()
                },
                None => unknown(old(self).entries(), id@) && final(self).entries() == old(
                    self,
                ).entries(),
            },
    {
        match self.find_config_index(id) {
            Some(index) => {
                let file_name = concat(id.as_str(), ".json");
                let file = join_path(self.config_dir.as_str(), file_name.as_str());
                self.configs.swap_remove(index);
                proof {
                    assert(self.entries() =~= old(self).entries().update(
                        index as int,
                        old(self).entries().last(),
                    ).drop_last());
                }
                Some(file)
            },
            None => None,
        }
    }
}

} // verus!
