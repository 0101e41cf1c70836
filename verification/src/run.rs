//! The diff/emitter: for an old and a new path, the ordered shell
//! directives moving the environment from the old directory's effective
//! state to the new one's — unset phase for the old path, then optional
//! hints, exports, alias definitions and run commands for the new path.
//! Emission is a pure function of the cache, the configuration, the two
//! paths and the import-file contents handed in by the caller.

use vstd::prelude::*;

verus! {

use crate::cache::Cache;
use crate::cache::CacheV;
use crate::config::Config;
use crate::config::ConfigV;
use crate::config::EnvAlias;
use crate::config::EnvAliasV;
use crate::config::EnvVariable;
use crate::config::EnvVariableV;
use crate::config::LocalConfig;
use crate::config::LocalConfigV;
use crate::config::append_vars;
use crate::envfile::parse_env_file;
use crate::envfile::spec_parse_env;
use crate::resolve::aliases_for_path;
use crate::resolve::files_to_load;
use crate::resolve::runs_for_path;
use crate::resolve::spec_aliases_for;
use crate::resolve::spec_files_for;
use crate::resolve::spec_runs_for;
use crate::resolve::spec_vars_for;
use crate::resolve::vars_for_path;
use crate::shell::Shell;
use crate::shell::spec_alias_end;
use crate::shell::spec_shell_name;
use crate::strutil::str_eq;

/// The directive unsetting a variable.
pub open spec fn unset_var_line(name: Seq<char>) -> Seq<char> {
    ("unset ")@ + name
}

/// The directive exporting a variable.
pub open spec fn export_line(v: EnvVariableV) -> Seq<char> {
    ("export ")@ + v.name + ("=\"")@ + v.value + ("\"")@
}

/// The directive undefining an alias, errors suppressed.
pub open spec fn unset_alias_line(name: Seq<char>) -> Seq<char> {
    ("unset -f ")@ + name + (" &> /dev/null")@
}

/// The line opening an alias definition in the given dialect.
pub open spec fn alias_start_line(shell: Shell, name: Seq<char>) -> Seq<char> {
    match shell {
        Shell::Bash => name + ("() {")@,
        Shell::Zsh => name + ("() {")@,
        Shell::Fish => ("function ")@ + name,
    }
}

/// The lines defining one alias: the dialect's opening line, the alias's
/// command lines, and the dialect's closing line.
pub open spec fn alias_block(shell: Shell, a: EnvAliasV) -> Seq<Seq<char>> {
    seq![alias_start_line(shell, a.name)] + a.commands + seq![spec_alias_end(shell)]
}

/// The lines defining every alias in order.
pub open spec fn alias_lines(shell: Shell, aliases: Seq<EnvAliasV>) -> Seq<Seq<char>>
    decreases aliases.len(),
{
    if aliases.len() == 0 {
        Seq::<Seq<char>>::empty()
    } else {
        alias_lines(shell, aliases.drop_last()) + alias_block(shell, aliases.last())
    }
}

/// Alias lines when a dialect may be missing: without one, no alias is
/// emitted (the emitter refuses a transition that would need one).
pub open spec fn opt_alias_lines(so: Option<Shell>, aliases: Seq<EnvAliasV>) -> Seq<Seq<char>> {
    match so {
        Some(s) => alias_lines(s, aliases),
        None => Seq::<Seq<char>>::empty(),
    }
}

/// The variable names joined with single spaces.
pub open spec fn joined_var_names(vars: Seq<EnvVariableV>) -> Seq<char>
    decreases vars.len(),
{
    if vars.len() == 0 {
        Seq::<char>::empty()
    } else if vars.len() == 1 {
        vars[0].name
    } else {
        joined_var_names(vars.drop_last()) + (" ")@ + vars.last().name
    }
}

/// The alias names joined with single spaces.
pub open spec fn joined_alias_names(aliases: Seq<EnvAliasV>) -> Seq<char>
    decreases aliases.len(),
{
    if aliases.len() == 0 {
        Seq::<char>::empty()
    } else if aliases.len() == 1 {
        aliases[0].name
    } else {
        joined_alias_names(aliases.drop_last()) + (" ")@ + aliases.last().name
    }
}

/// The cosmetic echo naming the variables about to be exported.
pub open spec fn env_hint_line(vars: Seq<EnvVariableV>) -> Seq<char> {
    ("echo \"cdwe: env: ")@ + joined_var_names(vars) + ("\"")@
}

/// The cosmetic echo naming the aliases about to be defined.
pub open spec fn alias_hint_line(aliases: Seq<EnvAliasV>) -> Seq<char> {
    ("echo \"cdwe: aliases: ")@ + joined_alias_names(aliases) + ("\"")@
}

/// The cosmetic echo naming a command about to run.
pub open spec fn run_hint_line(cmd: Seq<char>) -> Seq<char> {
    ("echo \"cdwe: running ")@ + cmd + ("\"")@
}

/// The run-phase lines: each command verbatim, preceded by its hint when
/// hints are on.
pub open spec fn run_lines(hints: bool, runs: Seq<Seq<char>>) -> Seq<Seq<char>>
    decreases runs.len(),
{
    if runs.len() == 0 {
        Seq::<Seq<char>>::empty()
    } else {
        run_lines(hints, runs.drop_last()) + (if hints {
            seq![run_hint_line(runs.last())]
        } else {
            Seq::<Seq<char>>::empty()
        }) + seq![runs.last()]
    }
}

/// Whether variable hints are enabled; absent settings default to on.
pub open spec fn env_hints_on(conf: ConfigV) -> bool {
    match conf.config {
        Some(g) => match g.env_hints {
            Some(b) => b,
            None => true,
        },
        None => true,
    }
}

/// Whether run-command hints are enabled; absent settings default to on.
pub open spec fn run_hints_on(conf: ConfigV) -> bool {
    match conf.config {
        Some(g) => match g.run_hints {
            Some(b) => b,
            None => true,
        },
        None => true,
    }
}

/// Whether alias hints are enabled; absent settings default to on.
pub open spec fn alias_hints_on(conf: ConfigV) -> bool {
    match conf.config {
        Some(g) => match g.alias_hints {
            Some(b) => b,
            None => true,
        },
        None => true,
    }
}

/// The unset phase for a leaving path: one unset per variable (declared and
/// import-file alike), then one undefinition per alias.
pub open spec fn unset_phase(vars: Seq<EnvVariableV>, aliases: Seq<EnvAliasV>) -> Seq<Seq<char>> {
    vars.map_values(|v: EnvVariableV| unset_var_line(v.name)) + aliases.map_values(
        |a: EnvAliasV| unset_alias_line(a.name),
    )
}

/// The exports of the set phase, in declaration order.
pub open spec fn export_lines(vars: Seq<EnvVariableV>) -> Seq<Seq<char>> {
    vars.map_values(|v: EnvVariableV| export_line(v))
}

/// The set phase for an entered path: optional hint and exports, optional
/// hint and alias definitions, then the run commands with their hints.
pub open spec fn set_phase(
    conf: ConfigV,
    so: Option<Shell>,
    vars: Seq<EnvVariableV>,
    aliases: Seq<EnvAliasV>,
    runs: Seq<Seq<char>>,
) -> Seq<Seq<char>> {
    (if env_hints_on(conf) && vars.len() > 0 {
        seq![env_hint_line(vars)]
    } else {
        Seq::<Seq<char>>::empty()
    }) + export_lines(vars) + (if alias_hints_on(conf) && aliases.len() > 0 {
        seq![alias_hint_line(aliases)]
    } else {
        Seq::<Seq<char>>::empty()
    }) + opt_alias_lines(so, aliases) + run_lines(run_hints_on(conf), runs)
}

/// The whole transition: the unset phase for the old path, then the set
/// phase for the new one. `old_fv` and `new_fv` are the variables parsed
/// from the old and new paths' import files.
pub open spec fn spec_transition(
    cv: CacheV,
    conf: ConfigV,
    so: Option<Shell>,
    oldq: Seq<char>,
    newq: Seq<char>,
    old_fv: Seq<EnvVariableV>,
    new_fv: Seq<EnvVariableV>,
) -> Seq<Seq<char>> {
    unset_phase(spec_vars_for(cv, conf, oldq) + old_fv, spec_aliases_for(cv, conf, oldq))
        + set_phase(
        conf,
        so,
        spec_vars_for(cv, conf, newq) + new_fv,
        spec_aliases_for(cv, conf, newq),
        spec_runs_for(cv, conf, newq),
    )
}

/// The variables of a path's import files, in file order: a missing file
/// contributes nothing, a malformed one fails the transition with its name,
/// line index and line text.
pub open spec fn spec_file_vars(files: Seq<Seq<char>>, contents: Seq<Option<Seq<char>>>) -> Result<
    Seq<EnvVariableV>,
    (Seq<char>, int, Seq<char>),
>
    decreases files.len(),
{
    if files.len() == 0 {
        Ok(Seq::<EnvVariableV>::empty())
    } else {
        match spec_file_vars(files.drop_last(), contents.drop_last()) {
            Err(e) => Err(e),
            Ok(vs) => match contents.last() {
                None => Ok(vs),
                Some(c) => match spec_parse_env(c) {
                    Ok(fv) => Ok(vs + fv),
                    Err(e) => Err((files.last(), e.0, e.1)),
                },
            },
        }
    }
}

/// An import-file parse failure stops the whole computation.
proof fn lemma_file_vars_err_persists(
    files: Seq<Seq<char>>,
    contents: Seq<Option<Seq<char>>>,
    k: int,
)
    requires
        0 <= k <= files.len(),
        contents.len() == files.len(),
        spec_file_vars(files.take(k), contents.take(k)) is Err,
    ensures
        spec_file_vars(files, contents) == spec_file_vars(files.take(k), contents.take(k)),
    decreases files.len() - k,
{
    if k < files.len() {
        assert(files.take(k + 1).drop_last() =~= files.take(k));
        assert(contents.take(k + 1).drop_last() =~= contents.take(k));
        lemma_file_vars_err_persists(files, contents, k + 1);
    } else {
        assert(files.take(k) =~= files);
        assert(contents.take(k) =~= contents);
    }
}

/// Why a transition could not be emitted: the configured shell identifier
/// is unknown while aliases must be defined, or an import file is
/// malformed.
#[derive(Debug, PartialEq, Eq)]
pub enum TransitionError {
    InvalidShell { shell: String },
    Import { file: String, line: usize, text: String },
}

pub ghost enum TransitionErrorV {
    InvalidShell { shell: Seq<char> },
    Import { file: Seq<char>, line: int, text: Seq<char> },
}

impl DeepView for TransitionError {
    type V = TransitionErrorV;

    open spec fn deep_view(&self) -> TransitionErrorV {
        match self {
            TransitionError::InvalidShell { shell } => TransitionErrorV::InvalidShell {
                shell: shell@,
            },
            TransitionError::Import { file, line, text } => TransitionErrorV::Import {
                file: file@,
                line: *line as int,
                text: text@,
            },
        }
    }
}

/// The dialect a shell identifier names, if any.
pub open spec fn spec_shell_of(s: Seq<char>) -> Option<Shell> {
    if s == spec_shell_name(Shell::Bash) {
        Some(Shell::Bash)
    } else if s == spec_shell_name(Shell::Fish) {
        Some(Shell::Fish)
    } else if s == spec_shell_name(Shell::Zsh) {
        Some(Shell::Zsh)
    } else {
        None
    }
}

/// What a transition emits, or the error refusing it: nothing for a no-op
/// transition; otherwise the old path's import files are read, then the
/// new path's, then the dialect is required if any alias must be defined,
/// and the transition lines follow.
pub open spec fn spec_run(
    cv: CacheV,
    conf: ConfigV,
    oldq: Seq<char>,
    newq: Seq<char>,
    oldc: Seq<Option<Seq<char>>>,
    newc: Seq<Option<Seq<char>>>,
) -> Result<Seq<Seq<char>>, TransitionErrorV> {
    if oldq == newq {
        Ok(Seq::<Seq<char>>::empty())
    } else {
        match spec_file_vars(spec_files_for(cv, conf, oldq), oldc) {
            Err(e) => Err(TransitionErrorV::Import { file: e.0, line: e.1, text: e.2 }),
            Ok(old_fv) => match spec_file_vars(spec_files_for(cv, conf, newq), newc) {
                Err(e) => Err(TransitionErrorV::Import { file: e.0, line: e.1, text: e.2 }),
                Ok(new_fv) => {
                    let so = spec_shell_of(cv.shell);
                    if so is None && spec_aliases_for(cv, conf, newq).len() > 0 {
                        Err(TransitionErrorV::InvalidShell { shell: cv.shell })
                    } else {
                        Ok(spec_transition(cv, conf, so, oldq, newq, old_fv, new_fv))
                    }
                },
            },
        }
    }
}

/// One unset directive per variable.
pub fn unset_variables(variables: &Vec<EnvVariable>) -> (r: Vec<String>)
    ensures
        r.deep_view() == variables.deep_view().map_values(
            |v: EnvVariableV| unset_var_line(v.name),
        ),
{
    let mut out: Vec<String> = Vec::new();
    let mut i: usize = 0;
    while i < variables.len()
        invariant
            i <= variables.len(),
            variables@.len() == variables.deep_view().len(),
            out@.len() == i,
            forall|j: int|
                0 <= j < i ==> out.deep_view()[j] == unset_var_line(
                    variables.deep_view()[j].name,
                ),
        decreases variables.len() - i,
    {
        let mut line = "unset ".to_owned();
        line.append(variables[i].name.as_str());
        proof {
            assert(line@ == unset_var_line(variables.deep_view()[i as int].name));
        }
        let ghost prev = out@;
        let ghost prev_dv = out.deep_view();
        out.push(line);
        proof {
            assert forall|j: int| 0 <= j <= i implies out.deep_view()[j] == unset_var_line(
                variables.deep_view()[j].name,
            ) by {
                assert(out.deep_view()[j] == out@[j].deep_view());
                if j < i {
                    assert(out@[j] == prev[j]);
                    assert(prev[j].deep_view() == prev_dv[j]);
                }
            }
        }
        i = i + 1;
    }
    proof {
        assert(out.deep_view() =~= variables.deep_view().map_values(
            |v: EnvVariableV| unset_var_line(v.name),
        ));
    }
    out
}

/// One export directive per variable.
pub fn set_variables(variables: &Vec<EnvVariable>) -> (r: Vec<String>)
    ensures
        r.deep_view() == export_lines(variables.deep_view()),
{
    let mut out: Vec<String> = Vec::new();
    let mut i: usize = 0;
    while i < variables.len()
        invariant
            i <= variables.len(),
            variables@.len() == variables.deep_view().len(),
            out@.len() == i,
            forall|j: int|
                0 <= j < i ==> out.deep_view()[j] == export_line(variables.deep_view()[j]),
        decreases variables.len() - i,
    {
        let mut line = "export ".to_owned();
        line.append(variables[i].name.as_str());
        line.append("=\"");
        line.append(variables[i].value.as_str());
        line.append("\"");
        proof {
            assert(line@ == export_line(variables.deep_view()[i as int]));
        }
        let ghost prev = out@;
        let ghost prev_dv = out.deep_view();
        out.push(line);
        proof {
            assert forall|j: int| 0 <= j <= i implies out.deep_view()[j] == export_line(
                variables.deep_view()[j],
            ) by {
                assert(out.deep_view()[j] == out@[j].deep_view());
                if j < i {
                    assert(out@[j] == prev[j]);
                    assert(prev[j].deep_view() == prev_dv[j]);
                }
            }
        }
        i = i + 1;
    }
    proof {
        assert(out.deep_view() =~= export_lines(variables.deep_view()));
    }
    out
}

/// One undefinition directive per alias, errors suppressed.
pub fn unset_aliases(aliases: &Vec<EnvAlias>) -> (r: Vec<String>)
    ensures
        r.deep_view() == aliases.deep_view().map_values(
            |a: EnvAliasV| unset_alias_line(a.name),
        ),
{
    let mut out: Vec<String> = Vec::new();
    let mut i: usize = 0;
    while i < aliases.len()
        invariant
            i <= aliases.len(),
            aliases@.len() == aliases.deep_view().len(),
            out@.len() == i,
            forall|j: int|
                0 <= j < i ==> out.deep_view()[j] == unset_alias_line(
                    aliases.deep_view()[j].name,
                ),
        decreases aliases.len() - i,
    {
        let mut line = "unset -f ".to_owned();
        line.append(aliases[i].name.as_str());
        line.append(" &> /dev/null");
        proof {
            assert(line@ == unset_alias_line(aliases.deep_view()[i as int].name));
        }
        let ghost prev = out@;
        let ghost prev_dv = out.deep_view();
        out.push(line);
        proof {
            assert forall|j: int| 0 <= j <= i implies out.deep_view()[j] == unset_alias_line(
                aliases.deep_view()[j].name,
            ) by {
                assert(out.deep_view()[j] == out@[j].deep_view());
                if j < i {
                    assert(out@[j] == prev[j]);
                    assert(prev[j].deep_view() == prev_dv[j]);
                }
            }
        }
        i = i + 1;
    }
    proof {
        assert(out.deep_view() =~= aliases.deep_view().map_values(
            |a: EnvAliasV| unset_alias_line(a.name),
        ));
    }
    out
}

/// Appends owned lines to the output.
fn extend_lines(out: &mut Vec<String>, src: Vec<String>)
    ensures
        final(out).deep_view() == old(out).deep_view() + src.deep_view(),
{
    let ghost adv = out.deep_view();
    let ghost a = out@;
    let ghost bdv = src.deep_view();
    let ghost b = src@;
    let mut s = src;
    out.append(&mut s);
    proof {
        assert(out@ == a + b);
        assert forall|j: int| 0 <= j < out@.len() implies out.deep_view()[j] == (adv + bdv)[j] by {
            assert(out.deep_view()[j] == out@[j].deep_view());
            if j < a.len() {
                assert(out@[j] == a[j]);
                assert(a[j].deep_view() == adv[j]);
            } else {
                assert(out@[j] == b[j - a.len()]);
                assert(b[j - a.len()].deep_view() == bdv[j - a.len()]);
            }
        }
        assert(out.deep_view() =~= adv + bdv);
    }
}

/// The definition lines of every alias in the given dialect; an unknown
/// shell identifier is refused.
pub fn set_aliases(aliases: &Vec<EnvAlias>, shell: &str) -> (r: Result<
    Vec<String>,
    TransitionError,
>)
    ensures
        match spec_shell_of(shell@) {
            Some(s) => r matches Ok(v) && v.deep_view() == alias_lines(s, aliases.deep_view()),
            None => r matches Err(e) && e.deep_view() == (TransitionErrorV::InvalidShell {
                shell: shell@,
            }),
        },
{
    let sh = match Shell::from_string(shell) {
        Ok(s) => s,
        Err(_) => {
            return Err(TransitionError::InvalidShell { shell: shell.to_owned() });
        },
    };
    let ghost adv = aliases.deep_view();
    let mut out: Vec<String> = Vec::new();
    proof {
        assert(adv.take(0) =~= Seq::<EnvAliasV>::empty());
        assert(out.deep_view() =~= alias_lines(sh, adv.take(0)));
    }
    let mut i: usize = 0;
    while i < aliases.len()
        invariant
            i <= aliases.len(),
            aliases@.len() == adv.len(),
            adv == aliases.deep_view(),
            out.deep_view() == alias_lines(sh, adv.take(i as int)),
        decreases aliases.len() - i,
    {
        proof {
            assert(adv[i as int] == aliases@[i as int].deep_view());
            assert(adv.take(i as int + 1).drop_last() =~= adv.take(i as int));
            assert(adv.take(i as int + 1).last() == adv[i as int]);
        }
        let ghost base = out.deep_view();
        let start: String = match sh {
            Shell::Bash => {
                let mut l = aliases[i].name.clone();
                l.append("() {");
                l
            },
            Shell::Zsh => {
                let mut l = aliases[i].name.clone();
                l.append("() {");
                l
            },
            Shell::Fish => {
                let mut l = "function ".to_owned();
                l.append(aliases[i].name.as_str());
                l
            },
        };
        proof {
            assert(start@ == alias_start_line(sh, adv[i as int].name));
        }
        let end: String = match sh {
            Shell::Bash => "}".to_owned(),
            Shell::Zsh => "}".to_owned(),
            Shell::Fish => "end".to_owned(),
        };
        proof {
            assert(end@ == spec_alias_end(sh));
        }
        let mut block: Vec<String> = Vec::new();
        block.push(start);
        proof {
            assert(block.deep_view() =~= seq![alias_start_line(sh, adv[i as int].name)]);
        }
        crate::strutil::append_strings(&mut block, &aliases[i].commands);
        block.push(end);
        proof {
            let ghost sdv = seq![alias_start_line(sh, adv[i as int].name)] + adv[i as int].commands;
            assert(block@.len() == sdv.len() + 1);
            assert forall|j: int| 0 <= j < block@.len() implies block.deep_view()[j] == (sdv
                + seq![spec_alias_end(sh)])[j] by {
                assert(block.deep_view()[j] == block@[j].deep_view());
                if j < sdv.len() {
                } else {
                    assert(block@[j].deep_view() == spec_alias_end(sh));
                }
            }
            assert(block.deep_view() =~= alias_block(sh, adv[i as int]));
        }
        extend_lines(&mut out, block);
        proof {
            assert(out.deep_view() == alias_lines(sh, adv.take(i as int + 1)));
        }
        i = i + 1;
    }
    proof {
        assert(adv.take(aliases@.len() as int) =~= adv);
    }
    Ok(out)
}

/// Each command verbatim, in declaration order.
pub fn run_commands(commands: &Vec<String>) -> (r: Vec<String>)
    ensures
        r.deep_view() == commands.deep_view(),
{
    let r = crate::strutil::clone_strings(commands);
    proof {
        assert(r.deep_view() =~= commands.deep_view());
    }
    r
}

/// The run-phase lines, hints included when enabled.
fn run_phase_lines(hints: bool, commands: &Vec<String>) -> (r: Vec<String>)
    ensures
        r.deep_view() == run_lines(hints, commands.deep_view()),
{
    let ghost cdv = commands.deep_view();
    let mut out: Vec<String> = Vec::new();
    proof {
        assert(cdv.take(0) =~= Seq::<Seq<char>>::empty());
        assert(out.deep_view() =~= run_lines(hints, cdv.take(0)));
    }
    let mut i: usize = 0;
    while i < commands.len()
        invariant
            i <= commands.len(),
            commands@.len() == cdv.len(),
            cdv == commands.deep_view(),
            out.deep_view() == run_lines(hints, cdv.take(i as int)),
        decreases commands.len() - i,
    {
        proof {
            assert(cdv[i as int] == commands@[i as int].deep_view());
            assert(cdv.take(i as int + 1).drop_last() =~= cdv.take(i as int));
            assert(cdv.take(i as int + 1).last() == cdv[i as int]);
        }
        let ghost base = out.deep_view();
        let mut step: Vec<String> = Vec::new();
        if hints {
            let mut hint = "echo \"cdwe: running ".to_owned();
            hint.append(commands[i].as_str());
            hint.append("\"");
            proof {
                assert(hint@ == run_hint_line(cdv[i as int]));
            }
            step.push(hint);
        }
        step.push(commands[i].clone());
        proof {
            if hints {
                assert(step.deep_view() =~= seq![run_hint_line(cdv[i as int])] + seq![
                    cdv[i as int],
                ]);
            } else {
                assert(step.deep_view() =~= seq![cdv[i as int]]);
                assert(step.deep_view() =~= Seq::<Seq<char>>::empty() + seq![cdv[i as int]]);
            }
        }
        extend_lines(&mut out, step);
        proof {
            assert(out.deep_view() =~= run_lines(hints, cdv.take(i as int + 1)));
        }
        i = i + 1;
    }
    proof {
        assert(cdv.take(commands@.len() as int) =~= cdv);
    }
    out
}

/// Joins the variable names with spaces.
fn join_var_names(vars: &Vec<EnvVariable>) -> (r: String)
    ensures
        r@ == joined_var_names(vars.deep_view()),
{
    let ghost vdv = vars.deep_view();
    let mut out = String::new();
    proof {
        assert(vdv.take(0) =~= Seq::<EnvVariableV>::empty());
        assert(out@ =~= joined_var_names(vdv.take(0)));
    }
    let mut i: usize = 0;
    while i < vars.len()
        invariant
            i <= vars.len(),
            vars@.len() == vdv.len(),
            vdv == vars.deep_view(),
            out@ == joined_var_names(vdv.take(i as int)),
        decreases vars.len() - i,
    {
        proof {
            assert(vdv[i as int] == vars@[i as int].deep_view());
            assert(vdv.take(i as int + 1).drop_last() =~= vdv.take(i as int));
            assert(vdv.take(i as int + 1).last() == vdv[i as int]);
            if i == 0 {
                assert(vdv.take(1)[0] == vdv[0]);
            }
        }
        if i > 0 {
            out.append(" ");
        }
        out.append(vars[i].name.as_str());
        i = i + 1;
    }
    proof {
        assert(vdv.take(vars@.len() as int) =~= vdv);
    }
    out
}

/// Joins the alias names with spaces.
fn join_alias_names(aliases: &Vec<EnvAlias>) -> (r: String)
    ensures
        r@ == joined_alias_names(aliases.deep_view()),
{
    let ghost adv = aliases.deep_view();
    let mut out = String::new();
    proof {
        assert(adv.take(0) =~= Seq::<EnvAliasV>::empty());
        assert(out@ =~= joined_alias_names(adv.take(0)));
    }
    let mut i: usize = 0;
    while i < aliases.len()
        invariant
            i <= aliases.len(),
            aliases@.len() == adv.len(),
            adv == aliases.deep_view(),
            out@ == joined_alias_names(adv.take(i as int)),
        decreases aliases.len() - i,
    {
        proof {
            assert(adv[i as int] == aliases@[i as int].deep_view());
            assert(adv.take(i as int + 1).drop_last() =~= adv.take(i as int));
            assert(adv.take(i as int + 1).last() == adv[i as int]);
            if i == 0 {
                assert(adv.take(1)[0] == adv[0]);
            }
        }
        if i > 0 {
            out.append(" ");
        }
        out.append(aliases[i].name.as_str());
        i = i + 1;
    }
    proof {
        assert(adv.take(aliases@.len() as int) =~= adv);
    }
    out
}

/// Collects the variables of a path's import files: contents are handed in
/// aligned with the file list; a missing file contributes nothing, a
/// malformed one fails with its declared name.
fn collect_file_vars(files: &Vec<String>, contents: &Vec<Option<String>>) -> (r: Result<
    Vec<EnvVariable>,
    TransitionError,
>)
    requires
        contents@.len() == files@.len(),
    ensures
        match spec_file_vars(files.deep_view(), contents.deep_view()) {
            Ok(vs) => r matches Ok(v) && v.deep_view() == vs,
            Err(e) => r matches Err(te) && te.deep_view() == (TransitionErrorV::Import {
                file: e.0,
                line: e.1,
                text: e.2,
            }),
        },
{
    let ghost fdv = files.deep_view();
    let ghost cdv = contents.deep_view();
    let mut out: Vec<EnvVariable> = Vec::new();
    proof {
        assert(fdv.take(0) =~= Seq::<Seq<char>>::empty());
        assert(cdv.take(0) =~= Seq::<Option<Seq<char>>>::empty());
        assert(out.deep_view() =~= Seq::<EnvVariableV>::empty());
    }
    let mut i: usize = 0;
    while i < files.len()
        invariant
            i <= files.len(),
            files@.len() == fdv.len(),
            contents@.len() == cdv.len(),
            cdv.len() == fdv.len(),
            fdv == files.deep_view(),
            cdv == contents.deep_view(),
            spec_file_vars(fdv.take(i as int), cdv.take(i as int)) == Ok::<Seq<EnvVariableV>, (
                Seq<char>,
                int,
                Seq<char>,
            )>(out.deep_view()),
        decreases files.len() - i,
    {
        proof {
            assert(fdv[i as int] == files@[i as int].deep_view());
            assert(cdv[i as int] == contents@[i as int].deep_view());
            assert(fdv.take(i as int + 1).drop_last() =~= fdv.take(i as int));
            assert(fdv.take(i as int + 1).last() == fdv[i as int]);
            assert(cdv.take(i as int + 1).drop_last() =~= cdv.take(i as int));
            assert(cdv.take(i as int + 1).last() == cdv[i as int]);
        }
        let ghost base = out.deep_view();
        match &contents[i] {
            None => {
                proof {
                    assert(spec_file_vars(fdv.take(i as int + 1), cdv.take(i as int + 1))
                        == Ok::<Seq<EnvVariableV>, (Seq<char>, int, Seq<char>)>(base));
                }
            },
            Some(content) => {
                match parse_env_file(content.as_str(), files[i].as_str()) {
                    Ok(fv) => {
                        append_vars(&mut out, &fv);
                        proof {
                            assert(spec_file_vars(fdv.take(i as int + 1), cdv.take(i as int + 1))
                                == Ok::<Seq<EnvVariableV>, (Seq<char>, int, Seq<char>)>(
                                out.deep_view(),
                            ));
                        }
                    },
                    Err(ie) => {
                        proof {
                            assert(spec_file_vars(fdv.take(i as int + 1), cdv.take(i as int + 1))
                                matches Err(e) && e == (fdv[i as int], ie.line as int, ie.text@));
                            lemma_file_vars_err_persists(fdv, cdv, i as int + 1);
                        }
                        return Err(
                            TransitionError::Import {
                                file: ie.file,
                                line: ie.line,
                                text: ie.text,
                            },
                        );
                    },
                }
            },
        }
        i = i + 1;
    }
    proof {
        assert(fdv.take(files@.len() as int) =~= fdv);
        assert(cdv.take(files@.len() as int) =~= cdv);
    }
    Ok(out)
}

/// Emits the shell directives for the transition from `old_path` to
/// `new_path`. The callers read the import files named by `files_to_load`
/// for each path and hand their contents in, aligned with that list, with
/// `None` for a file that could not be read. A no-op transition emits
/// nothing; a malformed import file or a missing dialect for needed
/// aliases refuses the transition.
#[verifier::rlimit(60)]
pub fn run(
    cache: &Cache,
    config: &Config,
    old_path: &str,
    new_path: &str,
    old_file_contents: &Vec<Option<String>>,
    new_file_contents: &Vec<Option<String>>,
) -> (r: Result<Vec<String>, TransitionError>)
    requires
        old_file_contents@.len() == spec_files_for(
            cache.deep_view(),
            config.deep_view(),
            old_path@,
        ).len(),
        new_file_contents@.len() == spec_files_for(
            cache.deep_view(),
            config.deep_view(),
            new_path@,
        ).len(),
    ensures
        match spec_run(
            cache.deep_view(),
            config.deep_view(),
            old_path@,
            new_path@,
            old_file_contents.deep_view(),
            new_file_contents.deep_view(),
        ) {
            Ok(lines) => r matches Ok(v) && v.deep_view() == lines,
            Err(e) => r matches Err(te) && te.deep_view() == e,
        },
        old_path@ == new_path@ ==> (r matches Ok(v) && v@.len() == 0),
{
    let ghost cv = cache.deep_view();
    let ghost conf = config.deep_view();
    if str_eq(old_path, new_path) {
        let out: Vec<String> = Vec::new();
        proof {
            assert(out.deep_view() =~= Seq::<Seq<char>>::empty());
        }
        return Ok(out);
    }
    let old_files = files_to_load(cache, config, old_path);
    let old_fv = match collect_file_vars(&old_files, old_file_contents) {
        Ok(v) => v,
        Err(e) => {
            return Err(e);
        },
    };
    let new_files = files_to_load(cache, config, new_path);
    let new_fv = match collect_file_vars(&new_files, new_file_contents) {
        Ok(v) => v,
        Err(e) => {
            return Err(e);
        },
    };
    let new_aliases = aliases_for_path(cache, config, new_path);
    let shell_parsed = Shell::from_string(cache.shell.as_str());
    proof {
        match spec_shell_of(cv.shell) {
            Some(s) => {
                assert(shell_parsed == Ok::<Shell, crate::shell::ShellParseError>(s));
            },
            None => {
                assert(shell_parsed is Err);
            },
        }
    }
    if shell_parsed.is_err() && new_aliases.len() > 0 {
        return Err(TransitionError::InvalidShell { shell: cache.shell.clone() });
    }
    // unset phase for the old path
    let old_vars = vars_for_path(cache, config, old_path);
    let mut all_old_vars = old_vars;
    append_vars(&mut all_old_vars, &old_fv);
    let old_aliases = aliases_for_path(cache, config, old_path);
    let mut out = unset_variables(&all_old_vars);
    extend_lines(&mut out, unset_aliases(&old_aliases));
    proof {
        assert(out.deep_view() =~= unset_phase(
            spec_vars_for(cv, conf, old_path@) + old_fv.deep_view(),
            spec_aliases_for(cv, conf, old_path@),
        ));
    }
    let ghost unset_part = out.deep_view();
    // set phase for the new path
    let new_vars = vars_for_path(cache, config, new_path);
    let mut all_new_vars = new_vars;
    append_vars(&mut all_new_vars, &new_fv);
    let ghost nv = all_new_vars.deep_view();
    let env_hints = match &config.config {
        Some(g) => match g.env_hints {
            Some(b) => b,
            None => true,
        },
        None => true,
    };
    let alias_hints = match &config.config {
        Some(g) => match g.alias_hints {
            Some(b) => b,
            None => true,
        },
        None => true,
    };
    let run_hints = match &config.config {
        Some(g) => match g.run_hints {
            Some(b) => b,
            None => true,
        },
        None => true,
    };
    proof {
        assert(env_hints == env_hints_on(conf));
        assert(alias_hints == alias_hints_on(conf));
        assert(run_hints == run_hints_on(conf));
    }
    if env_hints && all_new_vars.len() > 0 {
        let mut hint = "echo \"cdwe: env: ".to_owned();
        hint.append(join_var_names(&all_new_vars).as_str());
        hint.append("\"");
        proof {
            assert(hint@ == env_hint_line(nv));
        }
        out.push(hint);
        proof {
            assert(out.deep_view() =~= unset_part + seq![env_hint_line(nv)]);
        }
    } else {
        proof {
            assert(out.deep_view() =~= unset_part + Seq::<Seq<char>>::empty());
        }
    }
    let ghost hint_part = out.deep_view();
    extend_lines(&mut out, set_variables(&all_new_vars));
    let ghost export_part = out.deep_view();
    if alias_hints && new_aliases.len() > 0 {
        let mut hint = "echo \"cdwe: aliases: ".to_owned();
        hint.append(join_alias_names(&new_aliases).as_str());
        hint.append("\"");
        proof {
            assert(hint@ == alias_hint_line(new_aliases.deep_view()));
        }
        out.push(hint);
        proof {
            assert(out.deep_view() =~= export_part + seq![alias_hint_line(
                new_aliases.deep_view(),
            )]);
        }
    } else {
        proof {
            assert(out.deep_view() =~= export_part + Seq::<Seq<char>>::empty());
        }
    }
    let ghost ahint_part = out.deep_view();
    match shell_parsed {
        Ok(sh) => {
            match set_aliases(&new_aliases, cache.shell.as_str()) {
                Ok(lines) => {
                    extend_lines(&mut out, lines);
                },
                Err(_) => {
                    proof {
                        assert(false);
                    }
                },
            }
        },
        Err(_) => {
            proof {
                assert(new_aliases.deep_view().len() == 0);
                assert(opt_alias_lines(spec_shell_of(cv.shell), spec_aliases_for(cv, conf,
                new_path@)) =~= Seq::<Seq<char>>::empty());
                assert(out.deep_view() =~= ahint_part + Seq::<Seq<char>>::empty());
            }
        },
    }
    let ghost alias_part = out.deep_view();
    let new_runs = runs_for_path(cache, config, new_path);
    extend_lines(&mut out, run_phase_lines(run_hints, &new_runs));
    proof {
        assert(out.deep_view() =~= spec_transition(
            cv,
            conf,
            spec_shell_of(cv.shell),
            old_path@,
            new_path@,
            old_fv.deep_view(),
            new_fv.deep_view(),
        ));
    }
    Ok(out)
}

/// Emits the directives of the per-directory overlay layer, after the
/// cache-driven ones: unset the old overlay's variables and aliases, set
/// the new overlay's variables, define its aliases when the dialect is
/// known, and run its commands. A misconfigured shell in the overlay only
/// yields a warning, never a failure.
pub open spec fn spec_run_local(
    o: Option<LocalConfigV>,
    n: Option<LocalConfigV>,
    shell: Seq<char>,
) -> (Seq<Seq<char>>, Seq<Seq<char>>) {
    let unset_part: Seq<Seq<char>> = match o {
        Some(oc) => (match oc.variables {
            Some(vs) => vs.map_values(|v: EnvVariableV| unset_var_line(v.name)),
            None => Seq::<Seq<char>>::empty(),
        }) + (match oc.aliases {
            Some(als) => als.map_values(|a: EnvAliasV| unset_alias_line(a.name)),
            None => Seq::<Seq<char>>::empty(),
        }),
        None => Seq::<Seq<char>>::empty(),
    };
    let set_part: Seq<Seq<char>> = match n {
        Some(nc) => (match nc.variables {
            Some(vs) => export_lines(vs),
            None => Seq::<Seq<char>>::empty(),
        }) + (match (nc.aliases, spec_shell_of(shell)) {
            (Some(als), Some(s)) => alias_lines(s, als),
            _ => Seq::<Seq<char>>::empty(),
        }) + (match nc.commands {
            Some(cs) => cs,
            None => Seq::<Seq<char>>::empty(),
        }),
        None => Seq::<Seq<char>>::empty(),
    };
    let warnings: Seq<Seq<char>> = match n {
        Some(nc) => if nc.aliases is Some && spec_shell_of(shell) is None {
            seq![("misconfigured shell: ")@ + shell]
        } else {
            Seq::<Seq<char>>::empty()
        },
        None => Seq::<Seq<char>>::empty(),
    };
    (unset_part + set_part, warnings)
}

/// Emits the overlay layer's directives and warnings.
pub fn run_local(
    old_local_config: Option<&LocalConfig>,
    new_local_config: Option<&LocalConfig>,
    shell: &str,
) -> (r: (Vec<String>, Vec<String>))
    ensures
        ({
            let (lines, warnings) = spec_run_local(
                match old_local_config {
                    Some(c) => Some(c.deep_view()),
                    None => None,
                },
                match new_local_config {
                    Some(c) => Some(c.deep_view()),
                    None => None,
                },
                shell@,
            );
            r.0.deep_view() == lines && r.1.deep_view() == warnings
        }),
{
    let mut out: Vec<String> = Vec::new();
    let mut warnings: Vec<String> = Vec::new();
    proof {
        assert(out.deep_view() =~= Seq::<Seq<char>>::empty());
        assert(warnings.deep_view() =~= Seq::<Seq<char>>::empty());
    }
    match old_local_config {
        Some(oc) => {
            match &oc.variables {
                Some(vs) => {
                    extend_lines(&mut out, unset_variables(vs));
                },
                None => {},
            }
            let ghost var_part = out.deep_view();
            match &oc.aliases {
                Some(als) => {
                    extend_lines(&mut out, unset_aliases(als));
                },
                None => {},
            }
        },
        None => {},
    }
    let ghost unset_part = out.deep_view();
    proof {
        assert(unset_part =~= (match old_local_config {
            Some(oc) => ((match oc.deep_view().variables {
                Some(vs) => vs.map_values(|v: EnvVariableV| unset_var_line(v.name)),
                None => Seq::<Seq<char>>::empty(),
            }) + (match oc.deep_view().aliases {
                Some(als) => als.map_values(|a: EnvAliasV| unset_alias_line(a.name)),
                None => Seq::<Seq<char>>::empty(),
            })),
            None => Seq::<Seq<char>>::empty(),
        }));
    }
    match new_local_config {
        Some(nc) => {
            match &nc.variables {
                Some(vs) => {
                    extend_lines(&mut out, set_variables(vs));
                },
                None => {},
            }
            let ghost exp_part = out.deep_view();
            match &nc.aliases {
                Some(als) => {
                    match set_aliases(als, shell) {
                        Ok(lines) => {
                            extend_lines(&mut out, lines);
                        },
                        Err(_) => {
                            let mut w = "misconfigured shell: ".to_owned();
                            w.append(shell);
                            warnings.push(w);
                            proof {
                                assert(warnings.deep_view() =~= seq![
                                    ("misconfigured shell: ")@ + shell@,
                                ]);
                                assert(out.deep_view() =~= exp_part
                                    + Seq::<Seq<char>>::empty());
                            }
                        },
                    }
                },
                None => {},
            }
            let ghost alias_part = out.deep_view();
            match &nc.commands {
                Some(cs) => {
                    extend_lines(&mut out, run_commands(cs));
                },
                None => {},
            }
        },
        None => {},
    }
    proof {
        let (lines, warns) = spec_run_local(
            match old_local_config {
                Some(c) => Some(c.deep_view()),
                None => None,
            },
            match new_local_config {
                Some(c) => Some(c.deep_view()),
                None => None,
            },
            shell@,
        );
        assert(out.deep_view() =~= lines);
        assert(warnings.deep_view() =~= warns);
    }
    (out, warnings)
}

/// Round-trip inverse law: transitioning into a path and then back out
/// tears down exactly what was set up. For any two distinct paths, the
/// transition leaving `b` opens by unsetting, name for name and in
/// declaration order, precisely the variables that the transition entering
/// `b` exported (declared and import-file variables alike, given the same
/// import-file contents), and then undefines precisely the aliases it
/// defined; the i-th unset undoes the i-th export.
pub proof fn lemma_transition_inverse(
    cv: CacheV,
    conf: ConfigV,
    so_into: Option<Shell>,
    so_out: Option<Shell>,
    a: Seq<char>,
    b: Seq<char>,
    a_fv: Seq<EnvVariableV>,
    b_fv: Seq<EnvVariableV>,
)
    ensures
        ({
            let vars_b = spec_vars_for(cv, conf, b) + b_fv;
            let aliases_b = spec_aliases_for(cv, conf, b);
            let vars_a = spec_vars_for(cv, conf, a) + a_fv;
            let aliases_a = spec_aliases_for(cv, conf, a);
            let outof = spec_transition(cv, conf, so_out, b, a, b_fv, a_fv);
            let into = spec_transition(cv, conf, so_into, a, b, a_fv, b_fv);
            let off = vars_a.len() + aliases_a.len() + (if env_hints_on(conf) && vars_b.len() > 0 {
                1int
            } else {
                0int
            });
            &&& outof.take(vars_b.len() as int) == vars_b.map_values(
                |v: EnvVariableV| unset_var_line(v.name),
            )
            &&& outof.subrange(
                vars_b.len() as int,
                (vars_b.len() + aliases_b.len()) as int,
            ) == aliases_b.map_values(|al: EnvAliasV| unset_alias_line(al.name))
            &&& into.subrange(off, off + vars_b.len() as int) == export_lines(vars_b)
            &&& forall|i: int|
                0 <= i < vars_b.len() ==> #[trigger] outof[i] == unset_var_line(vars_b[i].name)
                    && into[off + i] == export_line(vars_b[i])
        }),
{
    let vars_b = spec_vars_for(cv, conf, b) + b_fv;
    let aliases_b = spec_aliases_for(cv, conf, b);
    let vars_a = spec_vars_for(cv, conf, a) + a_fv;
    let aliases_a = spec_aliases_for(cv, conf, a);
    let outof = spec_transition(cv, conf, so_out, b, a, b_fv, a_fv);
    let into = spec_transition(cv, conf, so_into, a, b, a_fv, b_fv);
    let off = vars_a.len() + aliases_a.len() + (if env_hints_on(conf) && vars_b.len() > 0 {
        1int
    } else {
        0int
    });
    assert(outof.take(vars_b.len() as int) =~= vars_b.map_values(
        |v: EnvVariableV| unset_var_line(v.name),
    ));
    assert(outof.subrange(vars_b.len() as int, (vars_b.len() + aliases_b.len()) as int)
        =~= aliases_b.map_values(|al: EnvAliasV| unset_alias_line(al.name)));
    assert(unset_phase(vars_a, aliases_a).len() == vars_a.len() + aliases_a.len());
    assert(into.subrange(off, off + vars_b.len() as int) =~= export_lines(vars_b));
    assert forall|i: int| 0 <= i < vars_b.len() implies #[trigger] outof[i] == unset_var_line(
        vars_b[i].name,
    ) && into[off + i] == export_line(vars_b[i]) by {
        assert(outof.take(vars_b.len() as int)[i] == outof[i]);
        assert(into.subrange(off, off + vars_b.len() as int)[i] == into[off + i]);
    }
}

/// Every variable applying to the entered path is exported: the emitted
/// transition contains the export directive of each variable that the
/// prefix rule (or an import file) yields for the new path.
pub proof fn lemma_transition_exports_applicable(
    cv: CacheV,
    conf: ConfigV,
    so: Option<Shell>,
    a: Seq<char>,
    b: Seq<char>,
    a_fv: Seq<EnvVariableV>,
    b_fv: Seq<EnvVariableV>,
    v: EnvVariableV,
)
    requires
        (spec_vars_for(cv, conf, b) + b_fv).contains(v),
    ensures
        spec_transition(cv, conf, so, a, b, a_fv, b_fv).contains(export_line(v)),
{
    lemma_transition_inverse(cv, conf, so, so, a, b, a_fv, b_fv);
    let vars_b = spec_vars_for(cv, conf, b) + b_fv;
    let aliases_b = spec_aliases_for(cv, conf, b);
    let vars_a = spec_vars_for(cv, conf, a) + a_fv;
    let aliases_a = spec_aliases_for(cv, conf, a);
    let into = spec_transition(cv, conf, so, a, b, a_fv, b_fv);
    let off = vars_a.len() + aliases_a.len() + (if env_hints_on(conf) && vars_b.len() > 0 {
        1int
    } else {
        0int
    });
    let i = choose|i: int| 0 <= i < vars_b.len() && vars_b[i] == v;
    assert(into[off + i] == export_line(vars_b[i]));
    assert(unset_phase(vars_a, aliases_a).len() == vars_a.len() + aliases_a.len());
    assert(into.len() >= off + vars_b.len());
    assert(into.contains(export_line(v)));
}

} // verus!
