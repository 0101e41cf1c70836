//! Path resolution: which variables, aliases, run commands and import
//! files apply to a concrete path. Directory-declared variables and
//! aliases are inherited into subdirectories (prefix rule); directory run
//! commands and file imports apply to the exact path only. Globally
//! declared variables, aliases and file imports apply by the prefix rule
//! against any path in their list, global commands by exact match only.

use vstd::prelude::*;

verus! {

use crate::cache::Cache;
use crate::cache::CacheEntryV;
use crate::cache::CacheV;
use crate::cache::lookup_entries;
use crate::config::Config;
use crate::config::ConfigV;
use crate::config::DirEnvVariableV;
use crate::config::DirectoryEnvAliasV;
use crate::config::EnvAlias;
use crate::config::EnvAliasV;
use crate::config::EnvCommandV;
use crate::config::EnvFileV;
use crate::config::EnvVariable;
use crate::config::EnvVariableV;
use crate::config::append_alias_vec;
use crate::config::append_vars;
use crate::matching::covers_exact;
use crate::matching::covers_prefix;
use crate::matching::match_exact;
use crate::matching::match_prefix;
use crate::strutil::append_strings;
use crate::strutil::clone_strings;

/// Some path in the list covers `q` by prefix.
pub open spec fn any_covers_prefix(ds: Seq<Seq<char>>, q: Seq<char>) -> bool {
    exists|k: int| 0 <= k < ds.len() && covers_prefix(ds[k], q)
}

/// Some path in the list equals `q`.
pub open spec fn any_covers_exact(ds: Seq<Seq<char>>, q: Seq<char>) -> bool {
    exists|k: int| 0 <= k < ds.len() && covers_exact(ds[k], q)
}

/// The variables of every cache entry whose path covers `q` by prefix, in
/// entry order.
pub open spec fn dir_vars_for(vs: Seq<CacheEntryV>, q: Seq<char>) -> Seq<EnvVariableV>
    decreases vs.len(),
{
    if vs.len() == 0 {
        Seq::<EnvVariableV>::empty()
    } else {
        dir_vars_for(vs.drop_last(), q) + (if covers_prefix(vs.last().path, q) {
            vs.last().dir.variables
        } else {
            Seq::<EnvVariableV>::empty()
        })
    }
}

/// The aliases of every cache entry whose path covers `q` by prefix, in
/// entry order.
pub open spec fn dir_aliases_for(vs: Seq<CacheEntryV>, q: Seq<char>) -> Seq<EnvAliasV>
    decreases vs.len(),
{
    if vs.len() == 0 {
        Seq::<EnvAliasV>::empty()
    } else {
        dir_aliases_for(vs.drop_last(), q) + (if covers_prefix(vs.last().path, q) {
            vs.last().dir.aliases
        } else {
            Seq::<EnvAliasV>::empty()
        })
    }
}

/// The globally declared variables applying to `q`: those with some listed
/// directory covering `q` by prefix.
pub open spec fn global_vars_for(gs: Seq<DirEnvVariableV>, q: Seq<char>) -> Seq<EnvVariableV>
    decreases gs.len(),
{
    if gs.len() == 0 {
        Seq::<EnvVariableV>::empty()
    } else {
        global_vars_for(gs.drop_last(), q) + (if any_covers_prefix(gs.last().dirs, q) {
            seq![(EnvVariableV { name: gs.last().name, value: gs.last().value })]
        } else {
            Seq::<EnvVariableV>::empty()
        })
    }
}

/// The globally declared aliases applying to `q`: those with some listed
/// path covering `q` by prefix.
pub open spec fn global_aliases_for(gs: Seq<DirectoryEnvAliasV>, q: Seq<char>) -> Seq<EnvAliasV>
    decreases gs.len(),
{
    if gs.len() == 0 {
        Seq::<EnvAliasV>::empty()
    } else {
        global_aliases_for(gs.drop_last(), q) + (if any_covers_prefix(gs.last().paths, q) {
            seq![(EnvAliasV { name: gs.last().name, commands: gs.last().commands })]
        } else {
            Seq::<EnvAliasV>::empty()
        })
    }
}

/// The globally declared run commands applying to `q`: those listing `q`
/// itself.
pub open spec fn global_cmds_for(gs: Seq<EnvCommandV>, q: Seq<char>) -> Seq<Seq<char>>
    decreases gs.len(),
{
    if gs.len() == 0 {
        Seq::<Seq<char>>::empty()
    } else {
        global_cmds_for(gs.drop_last(), q) + (if any_covers_exact(gs.last().dirs, q) {
            seq![gs.last().run]
        } else {
            Seq::<Seq<char>>::empty()
        })
    }
}

/// The globally declared import files applying to `q`: those with some
/// listed directory covering `q` by prefix.
pub open spec fn global_files_for(gs: Seq<EnvFileV>, q: Seq<char>) -> Seq<Seq<char>>
    decreases gs.len(),
{
    if gs.len() == 0 {
        Seq::<Seq<char>>::empty()
    } else {
        global_files_for(gs.drop_last(), q) + (if any_covers_prefix(gs.last().dirs, q) {
            seq![gs.last().load_from]
        } else {
            Seq::<Seq<char>>::empty()
        })
    }
}

/// Every variable applying to `q`: directory-declared ones first, then the
/// global section's.
pub open spec fn spec_vars_for(cv: CacheV, conf: ConfigV, q: Seq<char>) -> Seq<EnvVariableV> {
    dir_vars_for(cv.values, q) + (match conf.variables {
        Some(gs) => global_vars_for(gs, q),
        None => Seq::<EnvVariableV>::empty(),
    })
}

/// Every alias applying to `q`: directory-declared ones first, then the
/// global section's.
pub open spec fn spec_aliases_for(cv: CacheV, conf: ConfigV, q: Seq<char>) -> Seq<EnvAliasV> {
    dir_aliases_for(cv.values, q) + (match conf.aliases {
        Some(gs) => global_aliases_for(gs, q),
        None => Seq::<EnvAliasV>::empty(),
    })
}

/// Every run command firing at `q`: the exact cache entry's, then the
/// global section's with an exact match.
pub open spec fn spec_runs_for(cv: CacheV, conf: ConfigV, q: Seq<char>) -> Seq<Seq<char>> {
    (match lookup_entries(cv.values, q) {
        Some(d) => d.run,
        None => Seq::<Seq<char>>::empty(),
    }) + (match conf.commands {
        Some(gs) => global_cmds_for(gs, q),
        None => Seq::<Seq<char>>::empty(),
    })
}

/// Every import file read for `q`: the exact cache entry's list, then the
/// global section's with a prefix match.
pub open spec fn spec_files_for(cv: CacheV, conf: ConfigV, q: Seq<char>) -> Seq<Seq<char>> {
    (match lookup_entries(cv.values, q) {
        Some(d) => d.load_from,
        None => Seq::<Seq<char>>::empty(),
    }) + (match conf.files {
        Some(gs) => global_files_for(gs, q),
        None => Seq::<Seq<char>>::empty(),
    })
}

/// Decides whether some path in the list covers `path` by prefix.
fn any_prefix_match(dirs: &Vec<String>, path: &str) -> (r: bool)
    ensures
        r == any_covers_prefix(dirs.deep_view(), path@),
{
    let mut i: usize = 0;
    while i < dirs.len()
        invariant
            i <= dirs.len(),
            dirs@.len() == dirs.deep_view().len(),
            forall|k: int| 0 <= k < i ==> !covers_prefix(dirs.deep_view()[k], path@),
        decreases dirs.len() - i,
    {
        proof {
            assert(dirs.deep_view()[i as int] == dirs@[i as int]@);
        }
        if match_prefix(dirs[i].as_str(), path) {
            proof {
                assert(covers_prefix(dirs.deep_view()[i as int], path@));
            }
            return true;
        }
        i = i + 1;
    }
    false
}

/// Decides whether some path in the list equals `path`.
fn any_exact_match(dirs: &Vec<String>, path: &str) -> (r: bool)
    ensures
        r == any_covers_exact(dirs.deep_view(), path@),
{
    let mut i: usize = 0;
    while i < dirs.len()
        invariant
            i <= dirs.len(),
            dirs@.len() == dirs.deep_view().len(),
            forall|k: int| 0 <= k < i ==> !covers_exact(dirs.deep_view()[k], path@),
        decreases dirs.len() - i,
    {
        proof {
            assert(dirs.deep_view()[i as int] == dirs@[i as int]@);
        }
        if match_exact(dirs[i].as_str(), path) {
            proof {
                assert(covers_exact(dirs.deep_view()[i as int], path@));
            }
            return true;
        }
        i = i + 1;
    }
    false
}

/// The variables applying to `path`, from inherited directory entries and
/// the global section.
pub fn vars_for_path(cache: &Cache, config: &Config, path: &str) -> (r: Vec<EnvVariable>)
    ensures
        r.deep_view() == spec_vars_for(cache.deep_view(), config.deep_view(), path@),
{
    let ghost vdv = cache.values.deep_view();
    let mut out: Vec<EnvVariable> = Vec::new();
    proof {
        assert(vdv.take(0) =~= Seq::<CacheEntryV>::empty());
        assert(out.deep_view() =~= dir_vars_for(vdv.take(0), path@));
    }
    let mut i: usize = 0;
    while i < cache.values.len()
        invariant
            i <= cache.values.len(),
            cache.values@.len() == vdv.len(),
            vdv == cache.values.deep_view(),
            out.deep_view() == dir_vars_for(vdv.take(i as int), path@),
        decreases cache.values.len() - i,
    {
        proof {
            assert(vdv[i as int] == cache.values@[i as int].deep_view());
        }
        let ghost base = out.deep_view();
        let covered = match_prefix(cache.values[i].path.as_str(), path);
        if covered {
            append_vars(&mut out, &cache.values[i].dir.variables);
        }
        proof {
            assert(vdv.take(i as int + 1).drop_last() =~= vdv.take(i as int));
            assert(vdv.take(i as int + 1).last() == vdv[i as int]);
            if covered {
                assert(out.deep_view() == dir_vars_for(vdv.take(i as int + 1), path@));
            } else {
                assert(base + Seq::<EnvVariableV>::empty() =~= base);
                assert(out.deep_view() == dir_vars_for(vdv.take(i as int + 1), path@));
            }
        }
        i = i + 1;
    }
    proof {
        assert(vdv.take(cache.values@.len() as int) =~= vdv);
    }
    match &config.variables {
        Some(gvars) => {
            let ghost gdv = gvars.deep_view();
            proof {
                assert(gdv.take(0) =~= Seq::<DirEnvVariableV>::empty());
                assert(out.deep_view() + global_vars_for(gdv.take(0), path@) =~= out.deep_view());
            }
            let mut j: usize = 0;
            while j < gvars.len()
                invariant
                    j <= gvars.len(),
                    gvars@.len() == gdv.len(),
                    gdv == gvars.deep_view(),
                    out.deep_view() == dir_vars_for(vdv, path@) + global_vars_for(
                        gdv.take(j as int),
                        path@,
                    ),
                decreases gvars.len() - j,
            {
                proof {
                    assert(gdv[j as int] == gvars@[j as int].deep_view());
                    assert(gdv.take(j as int + 1).drop_last() =~= gdv.take(j as int));
                    assert(gdv.take(j as int + 1).last() == gdv[j as int]);
                }
                let ghost base = out.deep_view();
                let applies = any_prefix_match(&gvars[j].dirs, path);
                if applies {
                    let ev = EnvVariable {
                        name: gvars[j].name.clone(),
                        value: gvars[j].value.clone(),
                    };
                    let ghost prev = out@;
                    out.push(ev);
                    proof {
                        assert forall|k: int| 0 <= k < out@.len() implies out.deep_view()[k]
                            == base.push(
                            (EnvVariableV { name: gdv[j as int].name, value: gdv[j as int].value }),
                        )[k] by {
                            assert(out@ == prev.push(ev));
                            assert(out.deep_view()[k] == out@[k].deep_view());
                            if k < prev.len() {
                                assert(out@[k] == prev[k]);
                                assert(prev[k].deep_view() == base[k]);
                            } else {
                                assert(out@[k] == ev);
                            }
                        }
                        assert(out.deep_view() =~= base.push(
                            (EnvVariableV { name: gdv[j as int].name, value: gdv[j as int].value }),
                        ));
                        assert(out.deep_view() =~= dir_vars_for(vdv, path@) + global_vars_for(
                            gdv.take(j as int + 1),
                            path@,
                        ));
                    }
                } else {
                    proof {
                        assert(base + Seq::<EnvVariableV>::empty() =~= base);
                        assert(out.deep_view() =~= dir_vars_for(vdv, path@) + global_vars_for(
                            gdv.take(j as int + 1),
                            path@,
                        ));
                    }
                }
                j = j + 1;
            }
            proof {
                assert(gdv.take(gvars@.len() as int) =~= gdv);
            }
            out
        },
        None => {
            proof {
                assert(out.deep_view() + Seq::<EnvVariableV>::empty() =~= out.deep_view());
            }
            out
        },
    }
}

/// The aliases applying to `path`, from inherited directory entries and
/// the global section.
pub fn aliases_for_path(cache: &Cache, config: &Config, path: &str) -> (r: Vec<EnvAlias>)
    ensures
        r.deep_view() == spec_aliases_for(cache.deep_view(), config.deep_view(), path@),
{
    let ghost vdv = cache.values.deep_view();
    let mut out: Vec<EnvAlias> = Vec::new();
    proof {
        assert(vdv.take(0) =~= Seq::<CacheEntryV>::empty());
        assert(out.deep_view() =~= dir_aliases_for(vdv.take(0), path@));
    }
    let mut i: usize = 0;
    while i < cache.values.len()
        invariant
            i <= cache.values.len(),
            cache.values@.len() == vdv.len(),
            vdv == cache.values.deep_view(),
            out.deep_view() == dir_aliases_for(vdv.take(i as int), path@),
        decreases cache.values.len() - i,
    {
        proof {
            assert(vdv[i as int] == cache.values@[i as int].deep_view());
        }
        let ghost base = out.deep_view();
        let covered = match_prefix(cache.values[i].path.as_str(), path);
        if covered {
            append_alias_vec(&mut out, &cache.values[i].dir.aliases);
        }
        proof {
            assert(vdv.take(i as int + 1).drop_last() =~= vdv.take(i as int));
            assert(vdv.take(i as int + 1).last() == vdv[i as int]);
            if covered {
                assert(out.deep_view() == dir_aliases_for(vdv.take(i as int + 1), path@));
            } else {
                assert(base + Seq::<EnvAliasV>::empty() =~= base);
                assert(out.deep_view() == dir_aliases_for(vdv.take(i as int + 1), path@));
            }
        }
        i = i + 1;
    }
    proof {
        assert(vdv.take(cache.values@.len() as int) =~= vdv);
    }
    match &config.aliases {
        Some(galiases) => {
            let ghost gdv = galiases.deep_view();
            proof {
                assert(gdv.take(0) =~= Seq::<DirectoryEnvAliasV>::empty());
                assert(out.deep_view() + global_aliases_for(gdv.take(0), path@)
                    =~= out.deep_view());
            }
            let mut j: usize = 0;
            while j < galiases.len()
                invariant
                    j <= galiases.len(),
                    galiases@.len() == gdv.len(),
                    gdv == galiases.deep_view(),
                    out.deep_view() == dir_aliases_for(vdv, path@) + global_aliases_for(
                        gdv.take(j as int),
                        path@,
                    ),
                decreases galiases.len() - j,
            {
                proof {
                    assert(gdv[j as int] == galiases@[j as int].deep_view());
                    assert(gdv.take(j as int + 1).drop_last() =~= gdv.take(j as int));
                    assert(gdv.take(j as int + 1).last() == gdv[j as int]);
                }
                let ghost base = out.deep_view();
                let applies = any_prefix_match(&galiases[j].paths, path);
                if applies {
                    let al = EnvAlias {
                        name: galiases[j].name.clone(),
                        commands: clone_strings(&galiases[j].commands),
                    };
                    proof {
                        assert(al.deep_view() == (EnvAliasV {
                            name: gdv[j as int].name,
                            commands: gdv[j as int].commands,
                        }));
                    }
                    let ghost prev = out@;
                    out.push(al);
                    proof {
                        assert forall|k: int| 0 <= k < out@.len() implies out.deep_view()[k]
                            == base.push(
                            (EnvAliasV {
                                name: gdv[j as int].name,
                                commands: gdv[j as int].commands,
                            }),
                        )[k] by {
                            assert(out@ == prev.push(al));
                            assert(out.deep_view()[k] == out@[k].deep_view());
                            if k < prev.len() {
                                assert(out@[k] == prev[k]);
                                assert(prev[k].deep_view() == base[k]);
                            } else {
                                assert(out@[k] == al);
                            }
                        }
                        assert(out.deep_view() =~= base.push(
                            (EnvAliasV {
                                name: gdv[j as int].name,
                                commands: gdv[j as int].commands,
                            }),
                        ));
                        assert(out.deep_view() =~= dir_aliases_for(vdv, path@)
                            + global_aliases_for(gdv.take(j as int + 1), path@));
                    }
                } else {
                    proof {
                        assert(base + Seq::<EnvAliasV>::empty() =~= base);
                        assert(out.deep_view() =~= dir_aliases_for(vdv, path@)
                            + global_aliases_for(gdv.take(j as int + 1), path@));
                    }
                }
                j = j + 1;
            }
            proof {
                assert(gdv.take(galiases@.len() as int) =~= gdv);
            }
            out
        },
        None => {
            proof {
                assert(out.deep_view() + Seq::<EnvAliasV>::empty() =~= out.deep_view());
            }
            out
        },
    }
}

/// The run commands firing at `path`: the exact cache entry's, then
/// exact-matching global commands.
pub fn runs_for_path(cache: &Cache, config: &Config, path: &str) -> (r: Vec<String>)
    ensures
        r.deep_view() == spec_runs_for(cache.deep_view(), config.deep_view(), path@),
{
    let mut out: Vec<String> = Vec::new();
    match cache.get(path) {
        Some(d) => {
            proof {
                assert(out.deep_view() =~= Seq::<Seq<char>>::empty());
            }
            append_strings(&mut out, &d.run);
            proof {
                assert(Seq::<Seq<char>>::empty() + d.run.deep_view() =~= d.run.deep_view());
            }
        },
        None => {
            proof {
                assert(out.deep_view() =~= Seq::<Seq<char>>::empty());
            }
        },
    }
    let ghost dirpart = out.deep_view();
    match &config.commands {
        Some(gcmds) => {
            let ghost gdv = gcmds.deep_view();
            proof {
                assert(gdv.take(0) =~= Seq::<EnvCommandV>::empty());
                assert(out.deep_view() + global_cmds_for(gdv.take(0), path@) =~= out.deep_view());
            }
            let mut j: usize = 0;
            while j < gcmds.len()
                invariant
                    j <= gcmds.len(),
                    gcmds@.len() == gdv.len(),
                    gdv == gcmds.deep_view(),
                    out.deep_view() == dirpart + global_cmds_for(gdv.take(j as int), path@),
                decreases gcmds.len() - j,
            {
                proof {
                    assert(gdv[j as int] == gcmds@[j as int].deep_view());
                    assert(gdv.take(j as int + 1).drop_last() =~= gdv.take(j as int));
                    assert(gdv.take(j as int + 1).last() == gdv[j as int]);
                }
                let ghost base = out.deep_view();
                let applies = any_exact_match(&gcmds[j].dirs, path);
                if applies {
                    let cmd = gcmds[j].run.clone();
                    let ghost prev = out@;
                    out.push(cmd);
                    proof {
                        assert forall|k: int| 0 <= k < out@.len() implies out.deep_view()[k]
                            == base.push(gdv[j as int].run)[k] by {
                            assert(out@ == prev.push(cmd));
                            assert(out.deep_view()[k] == out@[k].deep_view());
                            if k < prev.len() {
                                assert(out@[k] == prev[k]);
                                assert(prev[k].deep_view() == base[k]);
                            } else {
                                assert(out@[k] == cmd);
                            }
                        }
                        assert(out.deep_view() =~= base.push(gdv[j as int].run));
                        assert(out.deep_view() =~= dirpart + global_cmds_for(
                            gdv.take(j as int + 1),
                            path@,
                        ));
                    }
                } else {
                    proof {
                        assert(base + Seq::<Seq<char>>::empty() =~= base);
                        assert(out.deep_view() =~= dirpart + global_cmds_for(
                            gdv.take(j as int + 1),
                            path@,
                        ));
                    }
                }
                j = j + 1;
            }
            proof {
                assert(gdv.take(gcmds@.len() as int) =~= gdv);
            }
            out
        },
        None => {
            proof {
                assert(out.deep_view() + Seq::<Seq<char>>::empty() =~= out.deep_view());
            }
            out
        },
    }
}

/// The import files read for `path`: the exact cache entry's list, then
/// prefix-matching global file imports.
pub fn files_to_load(cache: &Cache, config: &Config, path: &str) -> (r: Vec<String>)
    ensures
        r.deep_view() == spec_files_for(cache.deep_view(), config.deep_view(), path@),
{
    let mut out: Vec<String> = Vec::new();
    match cache.get(path) {
        Some(d) => {
            proof {
                assert(out.deep_view() =~= Seq::<Seq<char>>::empty());
            }
            append_strings(&mut out, &d.load_from);
            proof {
                assert(Seq::<Seq<char>>::empty() + d.load_from.deep_view()
                    =~= d.load_from.deep_view());
            }
        },
        None => {
            proof {
                assert(out.deep_view() =~= Seq::<Seq<char>>::empty());
            }
        },
    }
    let ghost dirpart = out.deep_view();
    match &config.files {
        Some(gfiles) => {
            let ghost gdv = gfiles.deep_view();
            proof {
                assert(gdv.take(0) =~= Seq::<EnvFileV>::empty());
                assert(out.deep_view() + global_files_for(gdv.take(0), path@) =~= out.deep_view());
            }
            let mut j: usize = 0;
            while j < gfiles.len()
                invariant
                    j <= gfiles.len(),
                    gfiles@.len() == gdv.len(),
                    gdv == gfiles.deep_view(),
                    out.deep_view() == dirpart + global_files_for(gdv.take(j as int), path@),
                decreases gfiles.len() - j,
            {
                proof {
                    assert(gdv[j as int] == gfiles@[j as int].deep_view());
                    assert(gdv.take(j as int + 1).drop_last() =~= gdv.take(j as int));
                    assert(gdv.take(j as int + 1).last() == gdv[j as int]);
                }
                let ghost base = out.deep_view();
                let applies = any_prefix_match(&gfiles[j].dirs, path);
                if applies {
                    let f = gfiles[j].load_from.clone();
                    let ghost prev = out@;
                    out.push(f);
                    proof {
                        assert forall|k: int| 0 <= k < out@.len() implies out.deep_view()[k]
                            == base.push(gdv[j as int].load_from)[k] by {
                            assert(out@ == prev.push(f));
                            assert(out.deep_view()[k] == out@[k].deep_view());
                            if k < prev.len() {
                                assert(out@[k] == prev[k]);
                                assert(prev[k].deep_view() == base[k]);
                            } else {
                                assert(out@[k] == f);
                            }
                        }
                        assert(out.deep_view() =~= base.push(gdv[j as int].load_from));
                        assert(out.deep_view() =~= dirpart + global_files_for(
                            gdv.take(j as int + 1),
                            path@,
                        ));
                    }
                } else {
                    proof {
                        assert(base + Seq::<Seq<char>>::empty() =~= base);
                        assert(out.deep_view() =~= dirpart + global_files_for(
                            gdv.take(j as int + 1),
                            path@,
                        ));
                    }
                }
                j = j + 1;
            }
            proof {
                assert(gdv.take(gfiles@.len() as int) =~= gdv);
            }
            out
        },
        None => {
            proof {
                assert(out.deep_view() + Seq::<Seq<char>>::empty() =~= out.deep_view());
            }
            out
        },
    }
}

/// Membership in a concatenation is membership in either part.
proof fn lemma_concat_contains<T>(a: Seq<T>, b: Seq<T>, x: T)
    ensures
        (a + b).contains(x) <==> (a.contains(x) || b.contains(x)),
{
    if (a + b).contains(x) {
        let i = choose|i: int| 0 <= i < (a + b).len() && (a + b)[i] == x;
        if i < a.len() {
            assert(a[i] == x);
        } else {
            assert(b[i - a.len()] == x);
        }
    }
    if a.contains(x) {
        let i = choose|i: int| 0 <= i < a.len() && a[i] == x;
        assert((a + b)[i] == x);
    }
    if b.contains(x) {
        let i = choose|i: int| 0 <= i < b.len() && b[i] == x;
        assert((a + b)[a.len() + i] == x);
    }
}

/// A variable stands among the directory-declared variables for `q`
/// exactly when some cache entry whose path covers `q` by prefix declares
/// it.
pub proof fn lemma_dir_vars_contains(vs: Seq<CacheEntryV>, q: Seq<char>, v: EnvVariableV)
    ensures
        dir_vars_for(vs, q).contains(v) <==> (exists|i: int|
            0 <= i < vs.len() && covers_prefix(vs[i].path, q) && vs[i].dir.variables.contains(v)),
    decreases vs.len(),
{
    if vs.len() > 0 {
        lemma_dir_vars_contains(vs.drop_last(), q, v);
        let pre = dir_vars_for(vs.drop_last(), q);
        let tail: Seq<EnvVariableV> = if covers_prefix(vs.last().path, q) {
            vs.last().dir.variables
        } else {
            Seq::<EnvVariableV>::empty()
        };
        lemma_concat_contains(pre, tail, v);
        if dir_vars_for(vs, q).contains(v) {
            if pre.contains(v) {
                let i = choose|i: int|
                    0 <= i < vs.drop_last().len() && covers_prefix(vs.drop_last()[i].path, q)
                        && vs.drop_last()[i].dir.variables.contains(v);
                assert(vs.drop_last()[i] == vs[i]);
                assert(covers_prefix(vs[i].path, q) && vs[i].dir.variables.contains(v));
            } else {
                assert(tail.contains(v));
                assert(covers_prefix(vs[vs.len() - 1].path, q) && vs[vs.len()
                    - 1].dir.variables.contains(v));
            }
        }
        if exists|i: int|
            0 <= i < vs.len() && covers_prefix(vs[i].path, q) && vs[i].dir.variables.contains(v) {
            let i = choose|i: int|
                0 <= i < vs.len() && covers_prefix(vs[i].path, q) && vs[i].dir.variables.contains(
                    v,
                );
            if i < vs.len() - 1 {
                assert(vs.drop_last()[i] == vs[i]);
                assert(pre.contains(v));
            } else {
                assert(tail.contains(v));
            }
        }
    }
}

/// A variable stands among the globally declared variables for `q` exactly
/// when some global declaration whose directory list covers `q` by prefix
/// declares it.
pub proof fn lemma_global_vars_contains(gs: Seq<DirEnvVariableV>, q: Seq<char>, v: EnvVariableV)
    ensures
        global_vars_for(gs, q).contains(v) <==> (exists|i: int|
            0 <= i < gs.len() && any_covers_prefix(gs[i].dirs, q) && gs[i].name == v.name
                && gs[i].value == v.value),
    decreases gs.len(),
{
    if gs.len() > 0 {
        lemma_global_vars_contains(gs.drop_last(), q, v);
        let pre = global_vars_for(gs.drop_last(), q);
        let tail: Seq<EnvVariableV> = if any_covers_prefix(gs.last().dirs, q) {
            seq![(EnvVariableV { name: gs.last().name, value: gs.last().value })]
        } else {
            Seq::<EnvVariableV>::empty()
        };
        lemma_concat_contains(pre, tail, v);
        if global_vars_for(gs, q).contains(v) {
            if pre.contains(v) {
                let i = choose|i: int|
                    0 <= i < gs.drop_last().len() && any_covers_prefix(gs.drop_last()[i].dirs, q)
                        && gs.drop_last()[i].name == v.name && gs.drop_last()[i].value == v.value;
                assert(gs.drop_last()[i] == gs[i]);
                assert(any_covers_prefix(gs[i].dirs, q) && gs[i].name == v.name && gs[i].value
                    == v.value);
            } else {
                assert(tail.contains(v));
                assert(tail[0] == v);
                assert(any_covers_prefix(gs[gs.len() - 1].dirs, q) && gs[gs.len() - 1].name
                    == v.name && gs[gs.len() - 1].value == v.value);
            }
        }
        if exists|i: int|
            0 <= i < gs.len() && any_covers_prefix(gs[i].dirs, q) && gs[i].name == v.name
                && gs[i].value == v.value {
            let i = choose|i: int|
                0 <= i < gs.len() && any_covers_prefix(gs[i].dirs, q) && gs[i].name == v.name
                    && gs[i].value == v.value;
            if i < gs.len() - 1 {
                assert(gs.drop_last()[i] == gs[i]);
                assert(pre.contains(v));
            } else {
                assert(tail[0] == v);
                assert(tail.contains(v));
            }
        }
    }
}

/// Prefix rule for variables: a variable is among those set for path `q`
/// exactly when a directory entry whose (resolved) path equals `q` or
/// stands above it declares the variable, or a global declaration scoped to
/// such a path does. In particular, entries whose path does not cover `q`
/// contribute nothing.
pub proof fn lemma_variable_applicability(cv: CacheV, conf: ConfigV, q: Seq<char>, v: EnvVariableV)
    ensures
        spec_vars_for(cv, conf, q).contains(v) <==> ((exists|i: int|
            0 <= i < cv.values.len() && covers_prefix(cv.values[i].path, q)
                && cv.values[i].dir.variables.contains(v)) || (match conf.variables {
            Some(gs) => exists|i: int|
                0 <= i < gs.len() && any_covers_prefix(gs[i].dirs, q) && gs[i].name == v.name
                    && gs[i].value == v.value,
            None => false,
        })),
{
    lemma_dir_vars_contains(cv.values, q, v);
    match conf.variables {
        Some(gs) => {
            lemma_global_vars_contains(gs, q, v);
            lemma_concat_contains(dir_vars_for(cv.values, q), global_vars_for(gs, q), v);
        },
        None => {
            lemma_concat_contains(
                dir_vars_for(cv.values, q),
                Seq::<EnvVariableV>::empty(),
                v,
            );
        },
    }
}

/// A command stands among the global run commands for `q` exactly when
/// some global declaration listing `q` itself declares it.
pub proof fn lemma_global_cmds_contains(gs: Seq<EnvCommandV>, q: Seq<char>, c: Seq<char>)
    ensures
        global_cmds_for(gs, q).contains(c) <==> (exists|i: int|
            0 <= i < gs.len() && any_covers_exact(gs[i].dirs, q) && gs[i].run == c),
    decreases gs.len(),
{
    if gs.len() > 0 {
        lemma_global_cmds_contains(gs.drop_last(), q, c);
        let pre = global_cmds_for(gs.drop_last(), q);
        let tail: Seq<Seq<char>> = if any_covers_exact(gs.last().dirs, q) {
            seq![gs.last().run]
        } else {
            Seq::<Seq<char>>::empty()
        };
        lemma_concat_contains(pre, tail, c);
        if global_cmds_for(gs, q).contains(c) {
            if pre.contains(c) {
                let i = choose|i: int|
                    0 <= i < gs.drop_last().len() && any_covers_exact(gs.drop_last()[i].dirs, q)
                        && gs.drop_last()[i].run == c;
                assert(gs.drop_last()[i] == gs[i]);
                assert(any_covers_exact(gs[i].dirs, q) && gs[i].run == c);
            } else {
                assert(tail.contains(c));
                assert(tail[0] == c);
                assert(any_covers_exact(gs[gs.len() - 1].dirs, q) && gs[gs.len() - 1].run == c);
            }
        }
        if exists|i: int| 0 <= i < gs.len() && any_covers_exact(gs[i].dirs, q) && gs[i].run == c {
            let i = choose|i: int|
                0 <= i < gs.len() && any_covers_exact(gs[i].dirs, q) && gs[i].run == c;
            if i < gs.len() - 1 {
                assert(gs.drop_last()[i] == gs[i]);
                assert(pre.contains(c));
            } else {
                assert(tail[0] == c);
                assert(tail.contains(c));
            }
        }
    }
}

/// Exact rule for run commands: a command fires at path `q` exactly when
/// the cache entry keyed by `q` itself declares it, or a global command
/// lists `q` itself. An entry keyed by a strict ancestor of `q` never
/// contributes a run command.
pub proof fn lemma_run_applicability(cv: CacheV, conf: ConfigV, q: Seq<char>, c: Seq<char>)
    ensures
        spec_runs_for(cv, conf, q).contains(c) <==> ((match lookup_entries(cv.values, q) {
            Some(d) => d.run.contains(c),
            None => false,
        }) || (match conf.commands {
            Some(gs) => exists|i: int|
                0 <= i < gs.len() && any_covers_exact(gs[i].dirs, q) && gs[i].run == c,
            None => false,
        })),
{
    let dirpart: Seq<Seq<char>> = match lookup_entries(cv.values, q) {
        Some(d) => d.run,
        None => Seq::<Seq<char>>::empty(),
    };
    match conf.commands {
        Some(gs) => {
            lemma_global_cmds_contains(gs, q, c);
            lemma_concat_contains(dirpart, global_cmds_for(gs, q), c);
        },
        None => {
            lemma_concat_contains(dirpart, Seq::<Seq<char>>::empty(), c);
        },
    }
}

/// A file stands among the global import files for `q` exactly when some
/// global declaration whose directory list covers `q` by prefix names it.
pub proof fn lemma_global_files_contains(gs: Seq<EnvFileV>, q: Seq<char>, f: Seq<char>)
    ensures
        global_files_for(gs, q).contains(f) <==> (exists|i: int|
            0 <= i < gs.len() && any_covers_prefix(gs[i].dirs, q) && gs[i].load_from == f),
    decreases gs.len(),
{
    if gs.len() > 0 {
        lemma_global_files_contains(gs.drop_last(), q, f);
        let pre = global_files_for(gs.drop_last(), q);
        let tail: Seq<Seq<char>> = if any_covers_prefix(gs.last().dirs, q) {
            seq![gs.last().load_from]
        } else {
            Seq::<Seq<char>>::empty()
        };
        lemma_concat_contains(pre, tail, f);
        if global_files_for(gs, q).contains(f) {
            if pre.contains(f) {
                let i = choose|i: int|
                    0 <= i < gs.drop_last().len() && any_covers_prefix(gs.drop_last()[i].dirs, q)
                        && gs.drop_last()[i].load_from == f;
                assert(gs.drop_last()[i] == gs[i]);
                assert(any_covers_prefix(gs[i].dirs, q) && gs[i].load_from == f);
            } else {
                assert(tail.contains(f));
                assert(tail[0] == f);
                assert(any_covers_prefix(gs[gs.len() - 1].dirs, q) && gs[gs.len() - 1].load_from
                    == f);
            }
        }
        if exists|i: int|
            0 <= i < gs.len() && any_covers_prefix(gs[i].dirs, q) && gs[i].load_from == f {
            let i = choose|i: int|
                0 <= i < gs.len() && any_covers_prefix(gs[i].dirs, q) && gs[i].load_from == f;
            if i < gs.len() - 1 {
                assert(gs.drop_last()[i] == gs[i]);
                assert(pre.contains(f));
            } else {
                assert(tail[0] == f);
                assert(tail.contains(f));
            }
        }
    }
}

/// Exact rule for directory file imports: an import file is read for path
/// `q` exactly when the cache entry keyed by `q` itself lists it, or a
/// prefix-matching global file declaration names it. An entry keyed by a
/// strict ancestor of `q` never contributes an import file.
pub proof fn lemma_file_applicability(cv: CacheV, conf: ConfigV, q: Seq<char>, f: Seq<char>)
    ensures
        spec_files_for(cv, conf, q).contains(f) <==> ((match lookup_entries(cv.values, q) {
            Some(d) => d.load_from.contains(f),
            None => false,
        }) || (match conf.files {
            Some(gs) => exists|i: int|
                0 <= i < gs.len() && any_covers_prefix(gs[i].dirs, q) && gs[i].load_from == f,
            None => false,
        })),
{
    let dirpart: Seq<Seq<char>> = match lookup_entries(cv.values, q) {
        Some(d) => d.load_from,
        None => Seq::<Seq<char>>::empty(),
    };
    match conf.files {
        Some(gs) => {
            lemma_global_files_contains(gs, q, f);
            lemma_concat_contains(dirpart, global_files_for(gs, q), f);
        },
        None => {
            lemma_concat_contains(dirpart, Seq::<Seq<char>>::empty(), f);
        },
    }
}

} // verus!
