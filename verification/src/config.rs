//! The user's settings: where caches and the collection live, and which
//! metadata keys each manifest section renders.
use vstd::prelude::*;
use indexmap::IndexMap;
use crate::text::str_eq;
use crate::utils::{expand_path, expand_path_with_home, expand_spec, opt_string_view};

verus! {

#[verifier::external_type_specification]
#[verifier::external_body]
#[verifier::reject_recursive_types(K)]
#[verifier::reject_recursive_types(V)]
#[verifier::reject_recursive_types(S)]
pub struct ExIndexMap<K, V, S>(IndexMap<K, V, S>);

/// The settings file.
pub struct AppConfig {
    pub storage: StorageConfig,
    pub collection: Option<CollectionConfig>,
    pub manifest: Option<ManifestConfig>,
}

/// Where downloaded metadata and covers are cached.
pub struct StorageConfig {
    pub cache: Option<String>,
}

/// Where collection entries are written.
pub struct CollectionConfig {
    pub folder: String,
}

/// The keys each manifest flag renders, in order, by flag name.
pub struct ManifestConfig {
    pub metadata: Option<IndexMap<String, ManifestKeyConfig>>,
    pub mbid: Option<IndexMap<String, ManifestKeyConfig>>,
    pub url: Option<IndexMap<String, ManifestKeyConfig>>,
}

/// How one key renders: at album or track level (`"album"`/`"albums"`,
/// `"track"`/`"tracks"`), and whether a blank line precedes it.
#[derive(Clone)]
pub struct ManifestKeyConfig {
    pub level: String,
    pub newline: bool,
}

/// The entries of a key table in order, each as key, level and newline
/// flag. (Trusted: see [`key_table_entries`].)
pub uninterp spec fn key_table(m: IndexMap<String, ManifestKeyConfig>) -> Seq<
    (Seq<char>, Seq<char>, bool),
>;

pub open spec fn entry_triples(v: Seq<(String, ManifestKeyConfig)>) -> Seq<
    (Seq<char>, Seq<char>, bool),
> {
    v.map_values(|e: (String, ManifestKeyConfig)| (e.0@, e.1.level@, e.1.newline))
}

/// `IndexMap::iter`, each entry copied out: the entries in insertion
/// order, as [`key_table`] names them; the keys are pairwise distinct, as
/// an `IndexMap` holds each key once.
#[verifier::external_body]
pub(crate) fn key_table_entries(m: &IndexMap<String, ManifestKeyConfig>) -> (r: Vec<
    (String, ManifestKeyConfig),
>)
    ensures
        entry_triples(r@) == key_table(*m),
        forall|i: int, j: int|
            0 <= i < j < r@.len() ==> (#[trigger] r@[i]).0@ != (#[trigger] r@[j]).0@,
{
    m.iter().map(|(k, v)| (k.clone(), v.clone())).collect()
}

impl ManifestConfig {
    /// The key table of a flag: `metadata`, `mbid` or `url`.
    pub open spec fn table_spec(&self, flag: Seq<char>) -> Option<IndexMap<String, ManifestKeyConfig>> {
        if flag == seq!['m', 'e', 't', 'a', 'd', 'a', 't', 'a'] {
            self.metadata
        } else if flag == seq!['m', 'b', 'i', 'd'] {
            self.mbid
        } else if flag == seq!['u', 'r', 'l'] {
            self.url
        } else {
            None
        }
    }

    pub fn table_for_flag(&self, flag: &str) -> (r: Option<&IndexMap<String, ManifestKeyConfig>>)
        ensures
            match r {
                Some(m) => self.table_spec(flag@) == Some(*m),
                None => self.table_spec(flag@) is None,
            },
    {
        proof {
            reveal_strlit("metadata");
            reveal_strlit("mbid");
            reveal_strlit("url");
            assert("metadata"@ =~= seq!['m', 'e', 't', 'a', 'd', 'a', 't', 'a']);
            assert("mbid"@ =~= seq!['m', 'b', 'i', 'd']);
            assert("url"@ =~= seq!['u', 'r', 'l']);
        }
        if str_eq(flag, "metadata") {
            assert(flag@ =~= seq!['m', 'e', 't', 'a', 'd', 'a', 't', 'a']);
            self.metadata.as_ref()
        } else if str_eq(flag, "mbid") {
            assert(flag@ =~= seq!['m', 'b', 'i', 'd']);
            self.mbid.as_ref()
        } else if str_eq(flag, "url") {
            assert(flag@ =~= seq!['u', 'r', 'l']);
            self.url.as_ref()
        } else {
            assert(flag@ != seq!['m', 'e', 't', 'a', 'd', 'a', 't', 'a']);
            assert(flag@ != seq!['m', 'b', 'i', 'd']);
            assert(flag@ != seq!['u', 'r', 'l']);
            None
        }
    }
}

/// The default cache directory.
pub open spec fn default_cache() -> Seq<char> {
    seq!['~', '/', '.', 'c', 'a', 'c', 'h', 'e', '/', 'v', 'e', 'l', 'l', 'c', 'r', 'o']
}

impl AppConfig {
    /// The cache directory for a given home directory: the configured one,
    /// else `~/.cache/vellcro`, with a leading `~` resolved.
    pub open spec fn cache_dir_spec(&self, home: Option<Seq<char>>) -> Seq<char> {
        match self.storage.cache {
            Some(p) => expand_spec(p@, home),
            None => expand_spec(default_cache(), home),
        }
    }

    /// The collection folder for a given home directory, if configured.
    pub open spec fn collection_folder_spec(&self, home: Option<Seq<char>>) -> Option<Seq<char>> {
        match self.collection {
            Some(c) => Some(expand_spec(c.folder@, home)),
            None => None,
        }
    }

    pub fn cache_dir_with_home(&self, home: Option<String>) -> (r: String)
        ensures
            r@ == self.cache_dir_spec(opt_string_view(home)),
    {
        proof {
            reveal_strlit("~/.cache/vellcro");
            assert("~/.cache/vellcro"@ =~= default_cache());
        }
        match &self.storage.cache {
            Some(p) => expand_path_with_home(p.as_str(), home),
            None => expand_path_with_home("~/.cache/vellcro", home),
        }
    }

    /// The settings file, `~/.config/vellcro/config.toml` resolved against
    /// the current home directory.
    pub fn config_file() -> (r: String)
        ensures
            exists|home: Option<Seq<char>>| r@ == expand_spec("~/.config/vellcro/config.toml"@, home),
    {
        expand_path("~/.config/vellcro/config.toml")
    }

    /// The cache directory, resolved against the current home directory.
    pub fn get_cache_dir(&self) -> (r: String)
        ensures
            exists|home: Option<Seq<char>>| r@ == self.cache_dir_spec(home),
    {
        proof {
            reveal_strlit("~/.cache/vellcro");
        }
        match &self.storage.cache {
            Some(p) => {
                let r = expand_path(p.as_str());
                let ghost h = choose|home: Option<Seq<char>>| r@ == expand_spec(p@, home);
                assert(r@ == self.cache_dir_spec(h));
                r
            },
            None => {
                let r = expand_path("~/.cache/vellcro");
                let ghost h = choose|home: Option<Seq<char>>|
                    r@ == expand_spec("~/.cache/vellcro"@, home);
                assert("~/.cache/vellcro"@ =~= default_cache());
                assert(r@ == self.cache_dir_spec(h));
                r
            },
        }
    }

    /// The collection folder, resolved against the current home directory.
    pub fn get_collection_folder(&self) -> (r: Option<String>)
        ensures
            r is Some <==> self.collection is Some,
            r is Some ==> exists|home: Option<Seq<char>>|
                self.collection_folder_spec(home) == Some(r->0@),
    {
        match &self.collection {
            Some(c) => {
                let r = expand_path(c.folder.as_str());
                let ghost h = choose|home: Option<Seq<char>>| r@ == expand_spec(c.folder@, home);
                assert(self.collection_folder_spec(h) == Some(r@));
                Some(r)
            },
            None => None,
        }
    }
}

} // verus!
