//! Direct variable queries against the live configuration: which variables
//! a directory entry declares for a path, by exact path equality on the
//! first matching entry.

use vstd::prelude::*;

verus! {

use crate::config::Config;
use crate::config::ConfigV;
use crate::config::EnvDirectoryV;
use crate::config::EnvVariable;
use crate::config::spec_normalize_vars;
use crate::strutil::str_eq;

/// A key/value pair of the process environment, or a variable about to be
/// exported.
#[derive(Debug, PartialEq, Eq)]
pub struct EnvVar {
    pub key: String,
    pub value: String,
}

pub ghost struct EnvVarV {
    pub key: Seq<char>,
    pub value: Seq<char>,
}

impl DeepView for EnvVar {
    type V = EnvVarV;

    open spec fn deep_view(&self) -> EnvVarV {
        EnvVarV { key: self.key@, value: self.value@ }
    }
}

impl Clone for EnvVar {
    fn clone(&self) -> (r: Self)
        ensures
            r == *self,
    {
        EnvVar { key: self.key.clone(), value: self.value.clone() }
    }
}

/// The first directory entry whose declared path equals `p`, if any.
pub open spec fn find_dir(dirs: Seq<EnvDirectoryV>, p: Seq<char>) -> Option<EnvDirectoryV>
    decreases dirs.len(),
{
    if dirs.len() == 0 {
        None
    } else if dirs.first().path == p {
        Some(dirs.first())
    } else {
        find_dir(dirs.drop_first(), p)
    }
}

/// The variables declared inline by the first directory entry whose path is
/// exactly `p`, in canonical list form, as key/value pairs.
pub open spec fn spec_vars_to_set(c: ConfigV, p: Seq<char>) -> Seq<EnvVarV> {
    match find_dir(c.directories, p) {
        Some(d) => match d.vars {
            Some(vs) => spec_normalize_vars(vs).map_values(
                |v: crate::config::EnvVariableV| EnvVarV { key: v.name, value: v.value },
            ),
            None => Seq::<EnvVarV>::empty(),
        },
        None => Seq::<EnvVarV>::empty(),
    }
}

/// The inline variables of the first directory entry declared exactly at
/// `new_path`; an unknown path yields no variables.
pub fn get_vars_to_set(config: &Config, new_path: &str) -> (r: Vec<EnvVar>)
    ensures
        r.deep_view() == spec_vars_to_set(config.deep_view(), new_path@),
{
    let ghost dv = config.directories.deep_view();
    proof {
        assert(dv.skip(0) =~= dv);
    }
    let n = config.directories.len();
    let mut i: usize = 0;
    while i < n
        invariant
            i <= n,
            n == config.directories@.len(),
            dv == config.directories.deep_view(),
            find_dir(dv, new_path@) == find_dir(dv.skip(i as int), new_path@),
        decreases n - i,
    {
        proof {
            assert(dv.skip(i as int).first() == dv[i as int]);
            assert(dv.skip(i as int).drop_first() =~= dv.skip(i as int + 1));
        }
        if str_eq(config.directories[i].path.as_str(), new_path) {
            proof {
                assert(find_dir(dv, new_path@) == Some(dv[i as int]));
            }
            let dir = &config.directories[i];
            match &dir.vars {
                Some(vs) => {
                    let normalized = vs.normalize();
                    let mut out: Vec<EnvVar> = Vec::new();
                    let mut k: usize = 0;
                    while k < normalized.len()
                        invariant
                            k <= normalized.len(),
                            out.deep_view().len() == k,
                            forall|j: int|
                                0 <= j < k ==> out.deep_view()[j] == (EnvVarV {
                                    key: normalized.deep_view()[j].name,
                                    value: normalized.deep_view()[j].value,
                                }),
                        decreases normalized.len() - k,
                    {
                        let ev = EnvVar {
                            key: normalized[k].name.clone(),
                            value: normalized[k].value.clone(),
                        };
                        let ghost prev = out@;
                        let ghost old_dv = out.deep_view();
                        out.push(ev);
                        proof {
                            assert forall|j: int| 0 <= j <= k implies out.deep_view()[j] == (
                            EnvVarV {
                                key: normalized.deep_view()[j].name,
                                value: normalized.deep_view()[j].value,
                            }) by {
                                assert(out@ == prev.push(ev));
                                assert(out.deep_view()[j] == out@[j].deep_view());
                                if j < k {
                                    assert(out@[j] == prev[j]);
                                    assert(prev[j].deep_view() == old_dv[j]);
                                } else {
                                    assert(out@[j] == ev);
                                }
                            }
                        }
                        k = k + 1;
                    }
                    proof {
                        assert(out.deep_view() =~= spec_vars_to_set(
                            config.deep_view(),
                            new_path@,
                        ));
                    }
                    return out;
                },
                None => {
                    let out: Vec<EnvVar> = Vec::new();
                    proof {
                        assert(out.deep_view() =~= Seq::<EnvVarV>::empty());
                    }
                    return out;
                },
            }
        }
        i = i + 1;
    }
    proof {
        assert(dv.skip(n as int) =~= Seq::<EnvDirectoryV>::empty());
    }
    let out: Vec<EnvVar> = Vec::new();
    proof {
        assert(out.deep_view() =~= Seq::<EnvVarV>::empty());
    }
    out
}

/// The names that would have to be unset to undo `get_vars_to_set` for
/// `old_path`.
pub fn get_vars_to_unset(config: &Config, old_path: &str) -> (r: Vec<String>)
    ensures
        r.deep_view() == spec_vars_to_set(config.deep_view(), old_path@).map_values(
            |v: EnvVarV| v.key,
        ),
{
    let vars = get_vars_to_set(config, old_path);
    let mut out: Vec<String> = Vec::new();
    let mut i: usize = 0;
    while i < vars.len()
        invariant
            i <= vars.len(),
            out@.len() == i,
            forall|j: int| 0 <= j < i ==> out.deep_view()[j] == vars.deep_view()[j].key,
        decreases vars.len() - i,
    {
        let s = vars[i].key.clone();
        let ghost prev = out@;
        let ghost old_dv = out.deep_view();
        out.push(s);
        proof {
            assert forall|j: int| 0 <= j <= i implies out.deep_view()[j] == vars.deep_view()[j].key
                by {
                assert(out.deep_view()[j] == out@[j].deep_view());
                if j < i {
                    assert(out@[j] == prev[j]);
                    assert(prev[j].deep_view() == old_dv[j]);
                } else {
                    assert(out@[j] == vars[i as int].key);
                }
            }
        }
        i = i + 1;
    }
    proof {
        assert(out.deep_view() =~= vars.deep_view().map_values(|v: EnvVarV| v.key));
    }
    out
}

} // verus!
