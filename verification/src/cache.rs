//! The compiled cache: for every declared directory (after path
//! templating) the pre-resolved bundle of directory-declared effects, keyed
//! by the substituted path and guarded by a content hash of the raw
//! configuration text. A later directory with the same resolved path
//! replaces an earlier one's entry.

use vstd::prelude::*;

verus! {

use crate::config::Config;
use crate::config::EnvAlias;
use crate::config::EnvAliasV;
use crate::config::EnvDirectoryV;
use crate::config::EnvVariable;
use crate::config::EnvVariableV;
use crate::config::clone_aliases;
use crate::config::spec_normalize_vars;
use crate::strutil::clone_strings;
use crate::strutil::str_eq;
use crate::template::insert_env_var_into_path;
use crate::template::spec_subst;
use crate::vars::EnvVar;
use crate::vars::EnvVarV;

/// The pre-resolved bundle of one concrete path: its variables, run
/// commands, aliases and import-file list.
#[derive(Debug, PartialEq, Eq)]
pub struct DirCache {
    pub variables: Vec<EnvVariable>,
    pub run: Vec<String>,
    pub aliases: Vec<EnvAlias>,
    pub load_from: Vec<String>,
}

pub ghost struct DirCacheV {
    pub variables: Seq<EnvVariableV>,
    pub run: Seq<Seq<char>>,
    pub aliases: Seq<EnvAliasV>,
    pub load_from: Seq<Seq<char>>,
}

impl DeepView for DirCache {
    type V = DirCacheV;

    open spec fn deep_view(&self) -> DirCacheV {
        DirCacheV {
            variables: self.variables.deep_view(),
            run: self.run.deep_view(),
            aliases: self.aliases.deep_view(),
            load_from: self.load_from.deep_view(),
        }
    }
}

/// One cache row: a resolved path and its bundle.
#[derive(Debug, PartialEq, Eq)]
pub struct CacheEntry {
    pub path: String,
    pub dir: DirCache,
}

pub ghost struct CacheEntryV {
    pub path: Seq<char>,
    pub dir: DirCacheV,
}

impl DeepView for CacheEntry {
    type V = CacheEntryV;

    open spec fn deep_view(&self) -> CacheEntryV {
        CacheEntryV { path: self.path@, dir: self.dir.deep_view() }
    }
}

/// The persisted artifact: the configured shell, the content hash of the
/// raw configuration text, and one entry per resolved directory path.
#[derive(Debug, PartialEq, Eq)]
pub struct Cache {
    pub shell: String,
    pub hash: String,
    pub values: Vec<CacheEntry>,
}

pub ghost struct CacheV {
    pub shell: Seq<char>,
    pub hash: Seq<char>,
    pub values: Seq<CacheEntryV>,
}

impl DeepView for Cache {
    type V = CacheV;

    open spec fn deep_view(&self) -> CacheV {
        CacheV { shell: self.shell@, hash: self.hash@, values: self.values.deep_view() }
    }
}

/// Index of the first entry keyed by `p`, if any.
pub open spec fn first_entry_index(vs: Seq<CacheEntryV>, p: Seq<char>) -> Option<int>
    decreases vs.len(),
{
    if vs.len() == 0 {
        None
    } else if vs.first().path == p {
        Some(0)
    } else {
        match first_entry_index(vs.drop_first(), p) {
            Some(i) => Some(i + 1),
            None => None,
        }
    }
}

/// `first_entry_index` returns exactly the least index keyed by `p`, and
/// `None` exactly when no entry is.
pub proof fn lemma_first_entry_index(vs: Seq<CacheEntryV>, p: Seq<char>)
    ensures
        match first_entry_index(vs, p) {
            Some(i) => 0 <= i < vs.len() && vs[i].path == p && (forall|j: int|
                0 <= j < i ==> vs[j].path != p),
            None => forall|j: int| 0 <= j < vs.len() ==> vs[j].path != p,
        },
    decreases vs.len(),
{
    if vs.len() > 0 && vs.first().path != p {
        lemma_first_entry_index(vs.drop_first(), p);
        match first_entry_index(vs.drop_first(), p) {
            Some(i) => {
                assert(vs.drop_first()[i] == vs[i + 1]);
                assert forall|j: int| 0 <= j < i + 1 implies vs[j].path != p by {
                    if j > 0 {
                        assert(vs.drop_first()[j - 1] == vs[j]);
                    }
                }
            },
            None => {
                assert forall|j: int| 0 <= j < vs.len() implies vs[j].path != p by {
                    if j > 0 {
                        assert(vs.drop_first()[j - 1] == vs[j]);
                    }
                }
            },
        }
    }
}

/// The bundle stored for path `p`: the first entry keyed by `p`.
pub open spec fn lookup_entries(vs: Seq<CacheEntryV>, p: Seq<char>) -> Option<DirCacheV> {
    match first_entry_index(vs, p) {
        Some(i) => Some(vs[i].dir),
        None => None,
    }
}

/// Inserting entry `e`: an existing entry with the same path is replaced in
/// place, otherwise `e` is appended.
pub open spec fn upsert(vs: Seq<CacheEntryV>, e: CacheEntryV) -> Seq<CacheEntryV> {
    match first_entry_index(vs, e.path) {
        Some(i) => vs.update(i, e),
        None => vs.push(e),
    }
}

/// The cache rows hold at most one entry per path.
pub open spec fn entries_wf(vs: Seq<CacheEntryV>) -> bool {
    forall|i: int, j: int| 0 <= i < j < vs.len() ==> vs[i].path != vs[j].path
}

/// `upsert` keeps the one-entry-per-path invariant.
pub proof fn lemma_upsert_wf(vs: Seq<CacheEntryV>, e: CacheEntryV)
    requires
        entries_wf(vs),
    ensures
        entries_wf(upsert(vs, e)),
{
    lemma_first_entry_index(vs, e.path);
}

/// After `upsert`, looking the inserted path up finds the new bundle, and
/// every other path is unaffected.
pub proof fn lemma_upsert_lookup(vs: Seq<CacheEntryV>, e: CacheEntryV, p: Seq<char>)
    ensures
        p == e.path ==> lookup_entries(upsert(vs, e), p) == Some(e.dir),
        p != e.path ==> lookup_entries(upsert(vs, e), p) == lookup_entries(vs, p),
{
    lemma_first_entry_index(vs, e.path);
    lemma_first_entry_index(vs, p);
    lemma_first_entry_index(upsert(vs, e), p);
    let us = upsert(vs, e);
    match first_entry_index(vs, e.path) {
        Some(i) => {
            assert(us == vs.update(i, e));
            assert(us[i] == e);
            assert(forall|j: int| 0 <= j < us.len() && j != i ==> us[j] == vs[j]);
            if p == e.path {
                assert(us[i].path == p);
                match first_entry_index(us, p) {
                    Some(k) => {
                        if k < i {
                            assert(vs[k].path != p);
                        } else if k > i {
                            assert(us[i].path != p);
                        }
                        assert(k == i);
                    },
                    None => {
                        assert(us[i].path != p);
                        assert(false);
                    },
                }
            } else {
                match first_entry_index(us, p) {
                    Some(k) => {
                        assert(us[k].path == p);
                        assert(k != i);
                        assert(vs[k].path == p);
                        match first_entry_index(vs, p) {
                            Some(m) => {
                                assert(m != i);
                                assert(us[m].path == p);
                                assert(k == m);
                            },
                            None => {
                                assert(vs[k].path != p);
                                assert(false);
                            },
                        }
                    },
                    None => {
                        match first_entry_index(vs, p) {
                            Some(m) => {
                                assert(m != i);
                                assert(us[m].path == p);
                                assert(false);
                            },
                            None => {},
                        }
                    },
                }
            }
        },
        None => {
            assert(us == vs.push(e));
            assert(us[vs.len() as int] == e);
            assert(forall|j: int| 0 <= j < vs.len() ==> us[j] == vs[j]);
            if p == e.path {
                match first_entry_index(us, p) {
                    Some(k) => {
                        if k < vs.len() {
                            assert(vs[k].path != e.path);
                        }
                        assert(k == vs.len());
                    },
                    None => {
                        assert(us[vs.len() as int].path != p);
                        assert(false);
                    },
                }
            } else {
                match first_entry_index(us, p) {
                    Some(k) => {
                        assert(us[k].path == p);
                        assert(k != vs.len());
                        assert(vs[k].path == p);
                        match first_entry_index(vs, p) {
                            Some(m) => {
                                assert(us[m].path == p);
                                assert(k == m);
                            },
                            None => {
                                assert(vs[k].path != p);
                                assert(false);
                            },
                        }
                    },
                    None => {
                        match first_entry_index(vs, p) {
                            Some(m) => {
                                assert(us[m].path == p);
                                assert(false);
                            },
                            None => {},
                        }
                    },
                }
            }
        },
    }
}

/// The bundle compiled from one directory entry: inline variables in
/// canonical form, and the declared run commands, aliases and file imports,
/// absent lists standing for empty ones.
pub open spec fn entry_of(d: EnvDirectoryV, env: Seq<EnvVarV>) -> CacheEntryV {
    CacheEntryV {
        path: spec_subst(d.path, env),
        dir: DirCacheV {
            variables: match d.vars {
                Some(vs) => spec_normalize_vars(vs),
                None => Seq::<EnvVariableV>::empty(),
            },
            run: match d.run {
                Some(r) => r,
                None => Seq::<Seq<char>>::empty(),
            },
            aliases: match d.aliases {
                Some(a) => a,
                None => Seq::<EnvAliasV>::empty(),
            },
            load_from: match d.load_from {
                Some(l) => l,
                None => Seq::<Seq<char>>::empty(),
            },
        },
    }
}

/// The cache rows compiled from a directory list, in declaration order,
/// later same-path entries replacing earlier ones.
pub open spec fn build_values(dirs: Seq<EnvDirectoryV>, env: Seq<EnvVarV>) -> Seq<CacheEntryV>
    decreases dirs.len(),
{
    if dirs.len() == 0 {
        Seq::<CacheEntryV>::empty()
    } else {
        upsert(build_values(dirs.drop_last(), env), entry_of(dirs.last(), env))
    }
}

/// Compiled cache rows hold at most one entry per path.
pub proof fn lemma_build_values_wf(dirs: Seq<EnvDirectoryV>, env: Seq<EnvVarV>)
    ensures
        entries_wf(build_values(dirs, env)),
    decreases dirs.len(),
{
    if dirs.len() > 0 {
        lemma_build_values_wf(dirs.drop_last(), env);
        lemma_upsert_wf(build_values(dirs.drop_last(), env), entry_of(dirs.last(), env));
    }
}

/// The shell the cache is built for: the configured one, or `bash` when the
/// global section or its shell field is absent.
pub open spec fn spec_cache_shell(c: crate::config::ConfigV) -> Seq<char> {
    match c.config {
        Some(g) => match g.shell {
            Some(s) => s,
            None => ("bash")@,
        },
        None => ("bash")@,
    }
}

/// Replaces the entry sharing `e`'s path, or appends `e`.
fn upsert_entry(values: &mut Vec<CacheEntry>, e: CacheEntry)
    ensures
        final(values).deep_view() == upsert(old(values).deep_view(), e.deep_view()),
{
    let ghost dv = values.deep_view();
    proof {
        lemma_first_entry_index(dv, e.deep_view().path);
        assert(dv.skip(0) =~= dv);
    }
    let mut i: usize = 0;
    while i < values.len()
        invariant
            i <= values.len(),
            values@.len() == dv.len(),
            dv == values.deep_view(),
            dv == old(values).deep_view(),
            forall|j: int| 0 <= j < i ==> dv[j].path != e.deep_view().path,
            match first_entry_index(dv, e.deep_view().path) {
                Some(k) => 0 <= k < dv.len() && dv[k].path == e.deep_view().path && (forall|
                    j: int,
                |
                    0 <= j < k ==> dv[j].path != e.deep_view().path),
                None => forall|j: int| 0 <= j < dv.len() ==> dv[j].path != e.deep_view().path,
            },
        decreases values.len() - i,
    {
        proof {
            assert(dv[i as int] == values@[i as int].deep_view());
        }
        if str_eq(values[i].path.as_str(), e.path.as_str()) {
            proof {
                assert(first_entry_index(dv, e.deep_view().path) == Some(i as int));
            }
            let ghost prev = values@;
            values.set(i, e);
            proof {
                assert(upsert(dv, e.deep_view()) == dv.update(i as int, e.deep_view()));
                assert forall|j: int| 0 <= j < values@.len() implies values.deep_view()[j]
                    == dv.update(i as int, e.deep_view())[j] by {
                    assert(values@ == prev.update(i as int, e));
                    assert(values.deep_view()[j] == values@[j].deep_view());
                    if j != i {
                        assert(values@[j] == prev[j]);
                        assert(prev[j].deep_view() == dv[j]);
                    } else {
                        assert(values@[j] == e);
                    }
                }
                assert(values.deep_view() =~= dv.update(i as int, e.deep_view()));
            }
            return ;
        }
        i = i + 1;
    }
    let ghost prev = values@;
    values.push(e);
    proof {
        assert(first_entry_index(dv, e.deep_view().path) is None);
        assert(upsert(dv, e.deep_view()) == dv.push(e.deep_view()));
        assert forall|j: int| 0 <= j < values@.len() implies values.deep_view()[j] == dv.push(
            e.deep_view(),
        )[j] by {
            assert(values@ == prev.push(e));
            assert(values.deep_view()[j] == values@[j].deep_view());
            if j < dv.len() {
                assert(values@[j] == prev[j]);
                assert(prev[j].deep_view() == dv[j]);
            } else {
                assert(values@[j] == e);
            }
        }
        assert(values.deep_view() =~= dv.push(e.deep_view()));
    }
}

impl Cache {
    /// Assembles a cache from its parts.
    pub fn new(shell: String, hash: String, values: Vec<CacheEntry>) -> (r: Self)
        ensures
            r.deep_view() == (CacheV { shell: shell@, hash: hash@, values: values.deep_view() }),
    {
        Cache { shell, hash, values }
    }

    /// Compiles the configuration into the cache: one row per directory
    /// entry, keyed by the entry's path with `{{ENV_VAR}}` placeholders
    /// substituted against the injected environment; a later directory with
    /// the same resolved path replaces the earlier row.
    pub fn from_config(config: &Config, env: &Vec<EnvVar>, config_hash: &str) -> (r: Self)
        ensures
            r.deep_view().shell == spec_cache_shell(config.deep_view()),
            r.deep_view().hash == config_hash@,
            r.deep_view().values == build_values(
                config.directories.deep_view(),
                env.deep_view(),
            ),
            entries_wf(r.deep_view().values),
    {
        let ghost ddv = config.directories.deep_view();
        let mut values: Vec<CacheEntry> = Vec::new();
        proof {
            assert(values.deep_view() =~= Seq::<CacheEntryV>::empty());
            assert(ddv.take(0) =~= Seq::<EnvDirectoryV>::empty());
        }
        let mut i: usize = 0;
        while i < config.directories.len()
            invariant
                i <= config.directories@.len(),
                ddv == config.directories.deep_view(),
                values.deep_view() == build_values(ddv.take(i as int), env.deep_view()),
            decreases config.directories@.len() - i,
        {
            let directory = &config.directories[i];
            let variables: Vec<EnvVariable> = match &directory.vars {
                Some(vs) => vs.normalize(),
                None => Vec::new(),
            };
            let aliases: Vec<EnvAlias> = match &directory.aliases {
                Some(a) => clone_aliases(a),
                None => Vec::new(),
            };
            let load_from: Vec<String> = match &directory.load_from {
                Some(l) => clone_strings(l),
                None => Vec::new(),
            };
            let run: Vec<String> = match &directory.run {
                Some(r) => clone_strings(r),
                None => Vec::new(),
            };
            let path = insert_env_var_into_path(directory.path.as_str(), env);
            let entry = CacheEntry {
                path,
                dir: DirCache { variables, run, aliases, load_from },
            };
            proof {
                assert(entry.dir.deep_view().variables =~= entry_of(
                    ddv[i as int],
                    env.deep_view(),
                ).dir.variables);
                assert(entry.dir.deep_view().run =~= entry_of(
                    ddv[i as int],
                    env.deep_view(),
                ).dir.run);
                assert(entry.dir.deep_view().aliases =~= entry_of(
                    ddv[i as int],
                    env.deep_view(),
                ).dir.aliases);
                assert(entry.dir.deep_view().load_from =~= entry_of(
                    ddv[i as int],
                    env.deep_view(),
                ).dir.load_from);
                assert(entry.deep_view() == entry_of(ddv[i as int], env.deep_view()));
            }
            upsert_entry(&mut values, entry);
            proof {
                assert(ddv.take(i + 1).drop_last() =~= ddv.take(i as int));
                assert(ddv.take(i + 1).last() == ddv[i as int]);
            }
            i = i + 1;
        }
        proof {
            assert(ddv.take(config.directories@.len() as int) =~= ddv);
            lemma_build_values_wf(ddv, env.deep_view());
        }
        let shell: String = match &config.config {
            Some(global_config) => match &global_config.shell {
                Some(s) => s.clone(),
                None => "bash".to_owned(),
            },
            None => "bash".to_owned(),
        };
        let hash = config_hash.to_owned();
        Cache { shell, hash, values }
    }

    /// The bundle stored for exactly this path; no prefix search.
    pub fn get(&self, path: &str) -> (r: Option<&DirCache>)
        ensures
            match lookup_entries(self.deep_view().values, path@) {
                Some(d) => r is Some && r.unwrap().deep_view() == d,
                None => r is None,
            },
    {
        let ghost dv = self.values.deep_view();
        proof {
            lemma_first_entry_index(dv, path@);
        }
        let mut i: usize = 0;
        while i < self.values.len()
            invariant
                i <= self.values.len(),
                self.values@.len() == dv.len(),
                dv == self.values.deep_view(),
                forall|j: int| 0 <= j < i ==> dv[j].path != path@,
                match first_entry_index(dv, path@) {
                    Some(k) => 0 <= k < dv.len() && dv[k].path == path@ && (forall|j: int|
                        0 <= j < k ==> dv[j].path != path@),
                    None => forall|j: int| 0 <= j < dv.len() ==> dv[j].path != path@,
                },
            decreases self.values.len() - i,
        {
            proof {
                assert(dv[i as int] == self.values@[i as int].deep_view());
            }
            if str_eq(self.values[i].path.as_str(), path) {
                proof {
                    assert(first_entry_index(dv, path@) == Some(i as int));
                }
                return Some(&self.values[i].dir);
            }
            i = i + 1;
        }
        None
    }
}

/// A stored cache is reused exactly when it exists and its recorded hash
/// equals the current configuration hash.
pub open spec fn spec_cache_reused(prev: Option<CacheV>, h: Seq<char>) -> bool {
    prev is Some && prev.unwrap().hash == h
}

/// Hash-guarded reuse: a stored cache carrying the digest of the current
/// configuration text is reused as it stands; one whose recorded digest
/// differs from the current text's digest is discarded and rebuilt. The
/// digest is the sole validity test.
pub proof fn lemma_hash_decides_reuse(stored: CacheV, current_text: Seq<char>)
    ensures
        stored.hash == crate::utils::sha256_digest(current_text) ==> spec_cache_reused(
            Some(stored),
            crate::utils::sha256_digest(current_text),
        ),
        stored.hash != crate::utils::sha256_digest(current_text) ==> !spec_cache_reused(
            Some(stored),
            crate::utils::sha256_digest(current_text),
        ),
{
}

/// Last declaration wins: the bundle the compiled cache stores for a
/// resolved path is the one compiled from the last directory entry
/// resolving to that path.
pub proof fn lemma_build_values_last_wins(
    dirs: Seq<EnvDirectoryV>,
    env: Seq<EnvVarV>,
    i: int,
)
    requires
        0 <= i < dirs.len(),
        forall|j: int|
            i < j < dirs.len() ==> entry_of(#[trigger] dirs[j], env).path != entry_of(
                dirs[i],
                env,
            ).path,
    ensures
        lookup_entries(build_values(dirs, env), entry_of(dirs[i], env).path) == Some(
            entry_of(dirs[i], env).dir,
        ),
    decreases dirs.len(),
{
    let e_last = entry_of(dirs.last(), env);
    let e_i = entry_of(dirs[i], env);
    if i == dirs.len() - 1 {
        lemma_upsert_lookup(build_values(dirs.drop_last(), env), e_last, e_i.path);
    } else {
        assert(e_last.path != e_i.path);
        lemma_upsert_lookup(build_values(dirs.drop_last(), env), e_last, e_i.path);
        assert(dirs.drop_last()[i] == dirs[i]);
        assert forall|j: int|
            i < j < dirs.drop_last().len() implies entry_of(
            #[trigger] dirs.drop_last()[j],
            env,
        ).path != entry_of(dirs.drop_last()[i], env).path by {
            assert(dirs.drop_last()[j] == dirs[j]);
        }
        lemma_build_values_last_wins(dirs.drop_last(), env, i);
    }
}

/// Decides between reusing a stored cache and compiling a fresh one: the
/// stored bytes are reused exactly when they parse and their hash equals
/// the current configuration hash; any parse failure counts as a missing
/// cache. The boolean tells whether a rebuild happened.
pub fn get_or_create_cache(
    cache_content: Option<&str>,
    config: &Config,
    env: &Vec<EnvVar>,
    config_hash: &str,
) -> (r: (Cache, bool))
    ensures
        ({
            let prev = match cache_content {
                Some(cc) => crate::codec::spec_parse_cache(cc@),
                None => None,
            };
            if spec_cache_reused(prev, config_hash@) {
                r.1 == false && r.0.deep_view() == prev.unwrap()
            } else {
                r.1 == true && r.0.deep_view().shell == spec_cache_shell(config.deep_view())
                    && r.0.deep_view().hash == config_hash@ && r.0.deep_view().values
                    == build_values(config.directories.deep_view(), env.deep_view())
            }
        }),
{
    match cache_content {
        Some(cc) => {
            match crate::codec::parse_cache(cc) {
                Some(prev) => {
                    if str_eq(prev.hash.as_str(), config_hash) {
                        return (prev, false);
                    }
                },
                None => {},
            }
        },
        None => {},
    }
    (Cache::from_config(config, env, config_hash), true)
}

} // verus!
