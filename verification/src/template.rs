//! Path templating: `{{ENV_VAR}}` placeholders inside a declared directory
//! path are replaced by the value of the named variable from an injected
//! environment; placeholders naming an unknown variable stay verbatim.
//! A placeholder is the shortest `{{...}}` span, scanning left to right,
//! and replacement text is never rescanned.

use vstd::prelude::*;

verus! {

use crate::strutil::str_eq;
use crate::vars::EnvVar;
use crate::vars::EnvVarV;

/// The value of the first environment entry named `name`, if any.
pub open spec fn env_lookup(env: Seq<EnvVarV>, name: Seq<char>) -> Option<Seq<char>>
    decreases env.len(),
{
    if env.len() == 0 {
        None
    } else if env.first().key == name {
        Some(env.first().value)
    } else {
        env_lookup(env.drop_first(), name)
    }
}

/// A `}}` pair starts at index `j` of `s`.
pub open spec fn close_at(s: Seq<char>, j: int) -> bool {
    s[j] == '}' && s[j + 1] == '}'
}

/// Index of the first `}}` inside `s`, if any.
pub open spec fn first_close(s: Seq<char>) -> Option<int>
    decreases s.len(),
{
    if s.len() < 2 {
        None
    } else if s[0] == '}' && s[1] == '}' {
        Some(0)
    } else {
        match first_close(s.drop_first()) {
            Some(i) => Some(i + 1),
            None => None,
        }
    }
}

/// `first_close` returns exactly the least index starting a `}}`, and
/// `None` exactly when no `}}` occurs.
pub proof fn lemma_first_close(s: Seq<char>)
    ensures
        match first_close(s) {
            Some(i) => 0 <= i <= s.len() - 2 && close_at(s, i) && (forall|j: int|
                0 <= j < i ==> !close_at(s, j)),
            None => forall|j: int| 0 <= j && j + 1 < s.len() ==> !close_at(s, j),
        },
    decreases s.len(),
{
    if s.len() >= 2 && !(s[0] == '}' && s[1] == '}') {
        lemma_first_close(s.drop_first());
        match first_close(s.drop_first()) {
            Some(i) => {
                assert(s.drop_first()[i] == s[i + 1] && s.drop_first()[i + 1] == s[i + 2]);
                assert forall|j: int| 0 <= j < i + 1 implies !close_at(s, j) by {
                    if j > 0 {
                        assert(s.drop_first()[j - 1] == s[j] && s.drop_first()[j] == s[j + 1]);
                        assert(!close_at(s.drop_first(), j - 1));
                    }
                }
            },
            None => {
                assert forall|j: int| 0 <= j && j + 1 < s.len() implies !close_at(s, j) by {
                    if j > 0 {
                        assert(s.drop_first()[j - 1] == s[j] && s.drop_first()[j] == s[j + 1]);
                        assert(!close_at(s.drop_first(), j - 1));
                    }
                }
            },
        }
    }
}

/// The result of substituting every placeholder of `s`, left to right: at a
/// `{{` with a later `}}`, the shortest span names a variable; a known name
/// is replaced by its value, an unknown one stays verbatim, and scanning
/// resumes after the `}}` either way.
pub open spec fn spec_subst(s: Seq<char>, env: Seq<EnvVarV>) -> Seq<char>
    decreases s.len(),
{
    if s.len() < 2 {
        s
    } else if s[0] == '{' && s[1] == '{' && first_close(s.skip(2)) is Some {
        let k = first_close(s.skip(2)).unwrap();
        let name = s.skip(2).take(k);
        let rest = if 0 <= k && 2 + k + 2 <= s.len() {
            s.skip(2 + k + 2)
        } else {
            Seq::<char>::empty()
        };
        match env_lookup(env, name) {
            Some(v) => v + spec_subst(rest, env),
            None => seq!['{', '{'] + name + seq!['}', '}'] + spec_subst(rest, env),
        }
    } else {
        seq![s[0]] + spec_subst(s.drop_first(), env)
    }
}

/// Finds the first `}}` at or after character position 2.
fn find_close_from_2(s: &str) -> (r: Option<usize>)
    requires
        s@.len() >= 2,
    ensures
        match r {
            Some(k) => first_close(s@.skip(2)) == Some(k as int) && 2 + k + 2 <= s@.len(),
            None => first_close(s@.skip(2)) is None,
        },
{
    proof {
        lemma_first_close(s@.skip(2));
    }
    let n = s.unicode_len();
    let mut i: usize = 2;
    while i < n - 1
        invariant
            2 <= i <= n,
            n == s@.len(),
            forall|j: int| 0 <= j < i - 2 ==> !close_at(s@.skip(2), j),
            match first_close(s@.skip(2)) {
                Some(k) => 0 <= k <= s@.skip(2).len() - 2 && close_at(s@.skip(2), k) && (forall|j: int|
                    0 <= j < k ==> !close_at(s@.skip(2), j)),
                None => forall|j: int| 0 <= j && j + 1 < s@.skip(2).len() ==> !close_at(s@.skip(2), j),
            },
        decreases n - i,
    {
        proof {
            assert(s@.skip(2)[i - 2] == s@[i as int] && s@.skip(2)[i - 1] == s@[i + 1]);
        }
        if s.get_char(i) == '}' && s.get_char(i + 1) == '}' {
            proof {
                assert(close_at(s@.skip(2), i - 2));
            }
            return Some(i - 2);
        }
        proof {
            assert(!close_at(s@.skip(2), i - 2));
        }
        i = i + 1;
    }
    None
}

/// Looks a name up in the injected environment; the first entry with that
/// key wins.
fn lookup_env(env: &Vec<EnvVar>, name: &str) -> (r: Option<String>)
    ensures
        match env_lookup(env.deep_view(), name@) {
            Some(v) => r is Some && r.unwrap()@ == v,
            None => r is None,
        },
{
    let ghost dv = env.deep_view();
    proof {
        assert(dv.skip(0) =~= dv);
    }
    let mut i: usize = 0;
    while i < env.len()
        invariant
            i <= env.len(),
            env@.len() == dv.len(),
            dv == env.deep_view(),
            env_lookup(dv, name@) == env_lookup(dv.skip(i as int), name@),
        decreases env.len() - i,
    {
        proof {
            assert(dv.skip(i as int).first() == dv[i as int]);
            assert(dv.skip(i as int).drop_first() =~= dv.skip(i as int + 1));
        }
        if str_eq(env[i].key.as_str(), name) {
            return Some(env[i].value.clone());
        }
        i = i + 1;
    }
    proof {
        assert(dv.skip(env@.len() as int) =~= Seq::<EnvVarV>::empty());
    }
    None
}

/// Substitutes `{{ENV_VAR}}` placeholders in a declared path against the
/// injected environment; placeholders with unknown names are left verbatim.
pub fn insert_env_var_into_path(path: &str, env: &Vec<EnvVar>) -> (r: String)
    ensures
        r@ == spec_subst(path@, env.deep_view()),
    decreases path@.len(),
{
    let n = path.unicode_len();
    if n < 2 {
        return path.to_owned();
    }
    if path.get_char(0) == '{' && path.get_char(1) == '{' {
        match find_close_from_2(path) {
            Some(k) => {
                let name = path.substring_char(2, 2 + k);
                let rest = path.substring_char(2 + k + 2, n);
                proof {
                    assert(name@ =~= path@.skip(2).take(k as int));
                    assert(rest@ =~= path@.skip(2 + k as int + 2));
                }
                let tail = insert_env_var_into_path(rest, env);
                match lookup_env(env, name) {
                    Some(v) => {
                        let mut out = v;
                        out.append(tail.as_str());
                        out
                    },
                    None => {
                        let mut out = "{{".to_owned();
                        out.append(name);
                        out.append("}}");
                        out.append(tail.as_str());
                        proof {
                            reveal_strlit("{{");
                            reveal_strlit("}}");
                            assert(("{{")@ =~= seq!['{', '{']);
                            assert(("}}")@ =~= seq!['}', '}']);
                        }
                        out
                    },
                }
            },
            None => {
                let first = path.substring_char(0, 1);
                let rest = path.substring_char(1, n);
                proof {
                    assert(first@ =~= seq![path@[0]]);
                    assert(rest@ =~= path@.drop_first());
                }
                let mut out = first.to_owned();
                let tail = insert_env_var_into_path(rest, env);
                out.append(tail.as_str());
                out
            },
        }
    } else {
        let first = path.substring_char(0, 1);
        let rest = path.substring_char(1, n);
        proof {
            assert(first@ =~= seq![path@[0]]);
            assert(rest@ =~= path@.drop_first());
        }
        let mut out = first.to_owned();
        let tail = insert_env_var_into_path(rest, env);
        out.append(tail.as_str());
        out
    }
}

} // verus!
