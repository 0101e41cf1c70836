//! The configuration model: a read-only, in-memory representation of the
//! declarative document that maps filesystem paths to environment effects.
//! Directory entries carry inline variables (in a mapping or a list form),
//! file imports, run commands and aliases; the global sections scope their
//! declarations by explicit path lists.

use vstd::prelude::*;

verus! {

use crate::shell::Shell;
use crate::shell::spec_shell_name;
use crate::strutil::clone_strings;

/// One environment variable: a name and the value it is exported with.
#[derive(Debug, PartialEq, Eq)]
pub struct EnvVariable {
    pub name: String,
    pub value: String,
}

pub ghost struct EnvVariableV {
    pub name: Seq<char>,
    pub value: Seq<char>,
}

impl DeepView for EnvVariable {
    type V = EnvVariableV;

    open spec fn deep_view(&self) -> EnvVariableV {
        EnvVariableV { name: self.name@, value: self.value@ }
    }
}

impl Clone for EnvVariable {
    fn clone(&self) -> (r: Self)
        ensures
            r == *self,
    {
        EnvVariable { name: self.name.clone(), value: self.value.clone() }
    }
}

/// A named shell function body declared inline in a directory entry.
#[derive(Debug, PartialEq, Eq)]
pub struct EnvAlias {
    pub name: String,
    pub commands: Vec<String>,
}

pub ghost struct EnvAliasV {
    pub name: Seq<char>,
    pub commands: Seq<Seq<char>>,
}

impl DeepView for EnvAlias {
    type V = EnvAliasV;

    open spec fn deep_view(&self) -> EnvAliasV {
        EnvAliasV { name: self.name@, commands: self.commands.deep_view() }
    }
}

impl Clone for EnvAlias {
    fn clone(&self) -> (r: Self)
        ensures
            r.deep_view() == self.deep_view(),
    {
        let r = EnvAlias { name: self.name.clone(), commands: clone_strings(&self.commands) };
        proof {
            assert(r.commands.deep_view() =~= self.commands.deep_view());
        }
        r
    }
}

/// Copies a vector of aliases; the copy has the same deep view.
pub fn clone_aliases(v: &Vec<EnvAlias>) -> (r: Vec<EnvAlias>)
    ensures
        r.deep_view() == v.deep_view(),
{
    let mut out: Vec<EnvAlias> = Vec::new();
    let mut i: usize = 0;
    while i < v.len()
        invariant
            i <= v.len(),
            out@.len() == i,
            forall|j: int| 0 <= j < i ==> out.deep_view()[j] == v.deep_view()[j],
        decreases v.len() - i,
    {
        let a = v[i].clone();
        let ghost prev = out@;
        let ghost old_dv = out.deep_view();
        out.push(a);
        proof {
            assert forall|j: int| 0 <= j <= i implies out.deep_view()[j] == v.deep_view()[j] by {
                assert(out.deep_view()[j] == out@[j].deep_view());
                if j < i {
                    assert(out@[j] == prev[j]);
                    assert(prev[j].deep_view() == old_dv[j]);
                } else {
                    assert(out@[j] == a);
                }
            }
        }
        i = i + 1;
    }
    proof {
        assert(out.deep_view() =~= v.deep_view());
    }
    out
}

/// Appends a copy of every variable in `src` to `out`.
pub fn append_vars(out: &mut Vec<EnvVariable>, src: &Vec<EnvVariable>)
    ensures
        final(out).deep_view() == old(out).deep_view() + src.deep_view(),
{
    let ghost base = out.deep_view();
    let mut i: usize = 0;
    proof {
        assert(out.deep_view() =~= base + src.deep_view().take(0));
    }
    while i < src.len()
        invariant
            i <= src.len(),
            src@.len() == src.deep_view().len(),
            base == old(out).deep_view(),
            out.deep_view() == base + src.deep_view().take(i as int),
        decreases src.len() - i,
    {
        let x = src[i].clone();
        let ghost prev = out@;
        let ghost prev_dv = out.deep_view();
        out.push(x);
        proof {
            assert forall|j: int| 0 <= j < out@.len() implies out.deep_view()[j] == prev_dv.push(
                src.deep_view()[i as int],
            )[j] by {
                assert(out@ == prev.push(x));
                assert(out.deep_view()[j] == out@[j].deep_view());
                if j < prev.len() {
                    assert(out@[j] == prev[j]);
                    assert(prev[j].deep_view() == prev_dv[j]);
                } else {
                    assert(out@[j] == x);
                    assert(x.deep_view() == src.deep_view()[i as int]);
                }
            }
            assert(out.deep_view() =~= prev_dv.push(src.deep_view()[i as int]));
            assert(prev_dv.push(src.deep_view()[i as int]) =~= base + src.deep_view().take(
                i as int + 1,
            ));
        }
        i = i + 1;
    }
    proof {
        assert(src.deep_view().take(src@.len() as int) =~= src.deep_view());
    }
}

/// Appends a copy of every alias in `src` to `out`.
pub fn append_alias_vec(out: &mut Vec<EnvAlias>, src: &Vec<EnvAlias>)
    ensures
        final(out).deep_view() == old(out).deep_view() + src.deep_view(),
{
    let ghost base = out.deep_view();
    let mut i: usize = 0;
    proof {
        assert(out.deep_view() =~= base + src.deep_view().take(0));
    }
    while i < src.len()
        invariant
            i <= src.len(),
            src@.len() == src.deep_view().len(),
            base == old(out).deep_view(),
            out.deep_view() == base + src.deep_view().take(i as int),
        decreases src.len() - i,
    {
        let x = src[i].clone();
        let ghost prev = out@;
        let ghost prev_dv = out.deep_view();
        out.push(x);
        proof {
            assert forall|j: int| 0 <= j < out@.len() implies out.deep_view()[j] == prev_dv.push(
                src.deep_view()[i as int],
            )[j] by {
                assert(out@ == prev.push(x));
                assert(out.deep_view()[j] == out@[j].deep_view());
                if j < prev.len() {
                    assert(out@[j] == prev[j]);
                    assert(prev[j].deep_view() == prev_dv[j]);
                } else {
                    assert(out@[j] == x);
                    assert(x.deep_view() == src.deep_view()[i as int]);
                }
            }
            assert(out.deep_view() =~= prev_dv.push(src.deep_view()[i as int]));
            assert(prev_dv.push(src.deep_view()[i as int]) =~= base + src.deep_view().take(
                i as int + 1,
            ));
        }
        i = i + 1;
    }
    proof {
        assert(src.deep_view().take(src@.len() as int) =~= src.deep_view());
    }
}

/// A globally declared alias, scoped to the paths it lists.
#[derive(Debug, PartialEq, Eq)]
pub struct DirectoryEnvAlias {
    pub name: String,
    pub commands: Vec<String>,
    pub paths: Vec<String>,
}

pub ghost struct DirectoryEnvAliasV {
    pub name: Seq<char>,
    pub commands: Seq<Seq<char>>,
    pub paths: Seq<Seq<char>>,
}

impl DeepView for DirectoryEnvAlias {
    type V = DirectoryEnvAliasV;

    open spec fn deep_view(&self) -> DirectoryEnvAliasV {
        DirectoryEnvAliasV {
            name: self.name@,
            commands: self.commands.deep_view(),
            paths: self.paths.deep_view(),
        }
    }
}

/// A globally declared variable, scoped to the directories it lists.
#[derive(Debug, PartialEq, Eq)]
pub struct DirEnvVariable {
    pub name: String,
    pub value: String,
    pub dirs: Vec<String>,
}

pub ghost struct DirEnvVariableV {
    pub name: Seq<char>,
    pub value: Seq<char>,
    pub dirs: Seq<Seq<char>>,
}

impl DeepView for DirEnvVariable {
    type V = DirEnvVariableV;

    open spec fn deep_view(&self) -> DirEnvVariableV {
        DirEnvVariableV { name: self.name@, value: self.value@, dirs: self.dirs.deep_view() }
    }
}

/// A globally declared run command, scoped to the directories it lists.
#[derive(Debug, PartialEq, Eq)]
pub struct EnvCommand {
    pub run: String,
    pub dirs: Vec<String>,
}

pub ghost struct EnvCommandV {
    pub run: Seq<char>,
    pub dirs: Seq<Seq<char>>,
}

impl DeepView for EnvCommand {
    type V = EnvCommandV;

    open spec fn deep_view(&self) -> EnvCommandV {
        EnvCommandV { run: self.run@, dirs: self.dirs.deep_view() }
    }
}

/// A globally declared `.env`-style import file, scoped to the directories
/// it lists.
#[derive(Debug, PartialEq, Eq)]
pub struct EnvFile {
    pub load_from: String,
    pub dirs: Vec<String>,
}

pub ghost struct EnvFileV {
    pub load_from: Seq<char>,
    pub dirs: Seq<Seq<char>>,
}

impl DeepView for EnvFile {
    type V = EnvFileV;

    open spec fn deep_view(&self) -> EnvFileV {
        EnvFileV { load_from: self.load_from@, dirs: self.dirs.deep_view() }
    }
}

/// The two historical source shapes of a directory's inline variables: a
/// mapping from names to values, or an explicit list. Both normalize to the
/// same list form; nothing outside `normalize` branches on the shape.
#[derive(Debug, PartialEq, Eq)]
pub enum EnvVariableStruct {
    Mapping(Vec<(String, String)>),
    EnvVariableVec(Vec<EnvVariable>),
}

pub ghost enum EnvVariableStructV {
    Mapping(Seq<(Seq<char>, Seq<char>)>),
    EnvVariableVec(Seq<EnvVariableV>),
}

impl DeepView for EnvVariableStruct {
    type V = EnvVariableStructV;

    open spec fn deep_view(&self) -> EnvVariableStructV {
        match self {
            EnvVariableStruct::Mapping(pairs) => EnvVariableStructV::Mapping(pairs.deep_view()),
            EnvVariableStruct::EnvVariableVec(vs) => EnvVariableStructV::EnvVariableVec(
                vs.deep_view(),
            ),
        }
    }
}

/// The canonical list form of either variable shape.
pub open spec fn spec_normalize_vars(v: EnvVariableStructV) -> Seq<EnvVariableV> {
    match v {
        EnvVariableStructV::Mapping(pairs) => pairs.map_values(
            |p: (Seq<char>, Seq<char>)| EnvVariableV { name: p.0, value: p.1 },
        ),
        EnvVariableStructV::EnvVariableVec(vs) => vs,
    }
}

impl EnvVariableStruct {
    /// Normalizes either source shape into the canonical variable list.
    pub fn normalize(&self) -> (r: Vec<EnvVariable>)
        ensures
            r.deep_view() == spec_normalize_vars(self.deep_view()),
    {
        match self {
            EnvVariableStruct::Mapping(pairs) => {
                let mut out: Vec<EnvVariable> = Vec::new();
                let mut i: usize = 0;
                while i < pairs.len()
                    invariant
                        i <= pairs.len(),
                        out.deep_view().len() == i,
                        forall|j: int|
                            0 <= j < i ==> out.deep_view()[j] == (EnvVariableV {
                                name: pairs.deep_view()[j].0,
                                value: pairs.deep_view()[j].1,
                            }),
                    decreases pairs.len() - i,
                {
                    let ev = EnvVariable { name: pairs[i].0.clone(), value: pairs[i].1.clone() };
                    proof {
                        assert(ev.deep_view() == (EnvVariableV {
                            name: pairs.deep_view()[i as int].0,
                            value: pairs.deep_view()[i as int].1,
                        }));
                    }
                    let ghost prev = out@;
                    let ghost old_dv = out.deep_view();
                    out.push(ev);
                    proof {
                        assert forall|j: int| 0 <= j <= i implies out.deep_view()[j] == (
                        EnvVariableV {
                            name: pairs.deep_view()[j].0,
                            value: pairs.deep_view()[j].1,
                        }) by {
                            assert(out@ == prev.push(ev));
                            assert(j < out@.len());
                            assert(out.deep_view()[j] == out@[j].deep_view());
                            if j < i {
                                assert(out@[j] == prev[j]);
                                assert(prev[j].deep_view() == old_dv[j]);
                            } else {
                                assert(out@[j] == ev);
                            }
                        }
                    }
                    i = i + 1;
                }
                proof {
                    assert(out.deep_view() =~= spec_normalize_vars(self.deep_view()));
                }
                out
            },
            EnvVariableStruct::EnvVariableVec(vs) => {
                let mut out: Vec<EnvVariable> = Vec::new();
                let mut i: usize = 0;
                while i < vs.len()
                    invariant
                        i <= vs.len(),
                        out@.len() == i,
                        forall|j: int| 0 <= j < i ==> out@[j] == vs@[j],
                    decreases vs.len() - i,
                {
                    out.push(vs[i].clone());
                    i = i + 1;
                }
                proof {
                    assert(out@ =~= vs@);
                    assert(out.deep_view() =~= spec_normalize_vars(self.deep_view()));
                }
                out
            },
        }
    }
}

impl Default for EnvVariableStruct {
    /// The default shape is the empty explicit list.
    fn default() -> (r: Self)
        ensures
            r.deep_view() == EnvVariableStructV::EnvVariableVec(Seq::<EnvVariableV>::empty()),
    {
        let v: Vec<EnvVariable> = Vec::new();
        proof {
            assert(v.deep_view() =~= Seq::<EnvVariableV>::empty());
        }
        EnvVariableStruct::EnvVariableVec(v)
    }
}

/// One directory entry: the primary declarative unit binding a path to
/// variables, file imports, run commands and aliases. The path may hold
/// `{{ENV_VAR}}` placeholders, substituted when the cache is built.
#[derive(Debug, PartialEq, Eq)]
pub struct EnvDirectory {
    pub path: String,
    pub vars: Option<EnvVariableStruct>,
    pub load_from: Option<Vec<String>>,
    pub run: Option<Vec<String>>,
    pub aliases: Option<Vec<EnvAlias>>,
}

pub ghost struct EnvDirectoryV {
    pub path: Seq<char>,
    pub vars: Option<EnvVariableStructV>,
    pub load_from: Option<Seq<Seq<char>>>,
    pub run: Option<Seq<Seq<char>>>,
    pub aliases: Option<Seq<EnvAliasV>>,
}

impl DeepView for EnvDirectory {
    type V = EnvDirectoryV;

    open spec fn deep_view(&self) -> EnvDirectoryV {
        EnvDirectoryV {
            path: self.path@,
            vars: self.vars.deep_view(),
            load_from: self.load_from.deep_view(),
            run: self.run.deep_view(),
            aliases: self.aliases.deep_view(),
        }
    }
}

/// Process-wide display and behaviour toggles; absent hint fields default to
/// enabled.
#[derive(Debug, PartialEq, Eq)]
pub struct GlobalConfig {
    pub shell: Option<String>,
    pub cd_command: Option<String>,
    pub env_hints: Option<bool>,
    pub run_hints: Option<bool>,
    pub alias_hints: Option<bool>,
}

pub ghost struct GlobalConfigV {
    pub shell: Option<Seq<char>>,
    pub cd_command: Option<Seq<char>>,
    pub env_hints: Option<bool>,
    pub run_hints: Option<bool>,
    pub alias_hints: Option<bool>,
}

impl DeepView for GlobalConfig {
    type V = GlobalConfigV;

    open spec fn deep_view(&self) -> GlobalConfigV {
        GlobalConfigV {
            shell: self.shell.deep_view(),
            cd_command: self.cd_command.deep_view(),
            env_hints: self.env_hints,
            run_hints: self.run_hints,
            alias_hints: self.alias_hints,
        }
    }
}

impl Default for GlobalConfig {
    /// No shell or `cd` command chosen; all hints enabled.
    fn default() -> (r: Self)
        ensures
            r.deep_view() == (GlobalConfigV {
                shell: None,
                cd_command: None,
                env_hints: Some(true),
                run_hints: Some(true),
                alias_hints: Some(true),
            }),
    {
        GlobalConfig {
            shell: None,
            cd_command: None,
            env_hints: Some(true),
            run_hints: Some(true),
            alias_hints: Some(true),
        }
    }
}

/// The full parsed configuration document.
#[derive(Debug, PartialEq, Eq)]
pub struct Config {
    pub config: Option<GlobalConfig>,
    pub directories: Vec<EnvDirectory>,
    pub variables: Option<Vec<DirEnvVariable>>,
    pub commands: Option<Vec<EnvCommand>>,
    pub files: Option<Vec<EnvFile>>,
    pub aliases: Option<Vec<DirectoryEnvAlias>>,
}

pub ghost struct ConfigV {
    pub config: Option<GlobalConfigV>,
    pub directories: Seq<EnvDirectoryV>,
    pub variables: Option<Seq<DirEnvVariableV>>,
    pub commands: Option<Seq<EnvCommandV>>,
    pub files: Option<Seq<EnvFileV>>,
    pub aliases: Option<Seq<DirectoryEnvAliasV>>,
}

impl DeepView for Config {
    type V = ConfigV;

    open spec fn deep_view(&self) -> ConfigV {
        ConfigV {
            config: self.config.deep_view(),
            directories: self.directories.deep_view(),
            variables: self.variables.deep_view(),
            commands: self.commands.deep_view(),
            files: self.files.deep_view(),
            aliases: self.aliases.deep_view(),
        }
    }
}

impl Default for Config {
    /// The empty document: no global section and no declarations.
    fn default() -> (r: Self)
        ensures
            r.deep_view() == (ConfigV {
                config: None,
                directories: Seq::<EnvDirectoryV>::empty(),
                variables: None,
                commands: None,
                files: None,
                aliases: None,
            }),
    {
        let r = Config {
            config: None,
            directories: Vec::new(),
            variables: None,
            commands: None,
            files: None,
            aliases: None,
        };
        proof {
            assert(r.directories.deep_view() =~= Seq::<EnvDirectoryV>::empty());
        }
        r
    }
}

impl Config {
    /// The starter document written on installation: the chosen shell and a
    /// single directory entry for the home directory.
    pub fn default_for_shell(shell: Shell) -> (r: Config)
        ensures
            r.deep_view() == (ConfigV {
                config: Some(
                    GlobalConfigV {
                        shell: Some(spec_shell_name(shell)),
                        cd_command: None,
                        env_hints: Some(true),
                        run_hints: Some(true),
                        alias_hints: Some(true),
                    },
                ),
                directories: seq![
                    (EnvDirectoryV {
                        path: ("~")@,
                        vars: None,
                        load_from: None,
                        run: None,
                        aliases: None,
                    }),
                ],
                variables: None,
                commands: None,
                files: None,
                aliases: None,
            }),
    {
        let mut directories: Vec<EnvDirectory> = Vec::new();
        directories.push(
            EnvDirectory {
                path: "~".to_owned(),
                vars: None,
                load_from: None,
                run: None,
                aliases: None,
            },
        );
        let r = Config {
            config: Some(
                GlobalConfig {
                    shell: Some(shell.to_string()),
                    cd_command: None,
                    env_hints: Some(true),
                    run_hints: Some(true),
                    alias_hints: Some(true),
                },
            ),
            directories,
            variables: None,
            commands: None,
            files: None,
            aliases: None,
        };
        proof {
            assert(r.directories.deep_view() =~= seq![
                (EnvDirectoryV {
                    path: ("~")@,
                    vars: None,
                    load_from: None,
                    run: None,
                    aliases: None,
                }),
            ]);
        }
        r
    }
}

/// A per-directory overlay document, found inside a directory the user
/// enters or leaves; its scope is implicitly the directory holding it.
#[derive(Debug, PartialEq, Eq)]
pub struct LocalConfig {
    pub variables: Option<Vec<EnvVariable>>,
    pub aliases: Option<Vec<EnvAlias>>,
    pub commands: Option<Vec<String>>,
}

pub ghost struct LocalConfigV {
    pub variables: Option<Seq<EnvVariableV>>,
    pub aliases: Option<Seq<EnvAliasV>>,
    pub commands: Option<Seq<Seq<char>>>,
}

impl DeepView for LocalConfig {
    type V = LocalConfigV;

    open spec fn deep_view(&self) -> LocalConfigV {
        LocalConfigV {
            variables: self.variables.deep_view(),
            aliases: self.aliases.deep_view(),
            commands: self.commands.deep_view(),
        }
    }
}

} // verus!
