use cdwe::cache::Cache;
use cdwe::config::{
    Config, DirEnvVariable, DirectoryEnvAlias, EnvAlias, EnvCommand, EnvDirectory, EnvFile,
    EnvVariable, EnvVariableStruct, GlobalConfig, LocalConfig,
};
use cdwe::resolve::{aliases_for_path, files_to_load, runs_for_path, vars_for_path};
use cdwe::run::{run, run_local, TransitionError};
use cdwe::vars::{get_vars_to_set, get_vars_to_unset, EnvVar};

fn quiet_global(shell: &str) -> GlobalConfig {
    GlobalConfig {
        shell: Some(shell.to_string()),
        cd_command: None,
        env_hints: Some(false),
        run_hints: Some(false),
        alias_hints: Some(false),
    }
}

fn proj_config() -> Config {
    Config {
        config: Some(quiet_global("bash")),
        directories: vec![EnvDirectory {
            path: "/proj".to_string(),
            vars: Some(EnvVariableStruct::EnvVariableVec(vec![EnvVariable {
                name: "FOO".to_string(),
                value: "1".to_string(),
            }])),
            load_from: None,
            run: Some(vec!["echo hi".to_string()]),
            aliases: Some(vec![EnvAlias {
                name: "greet".to_string(),
                commands: vec!["echo hello".to_string()],
            }]),
        }],
        variables: None,
        commands: None,
        files: None,
        aliases: None,
    }
}

fn emit(cache: &Cache, config: &Config, old: &str, new: &str) -> Vec<String> {
    let old_files = files_to_load(cache, config, old);
    let new_files = files_to_load(cache, config, new);
    let old_contents: Vec<Option<String>> = old_files.iter().map(|_| None).collect();
    let new_contents: Vec<Option<String>> = new_files.iter().map(|_| None).collect();
    run(cache, config, old, new, &old_contents, &new_contents).unwrap()
}

#[test]
fn transition_into_declared_directory() {
    let config = proj_config();
    let env: Vec<EnvVar> = vec![];
    let cache = Cache::from_config(&config, &env, "h1");
    let lines = emit(&cache, &config, "/tmp", "/proj");
    assert_eq!(
        lines,
        vec![
            "export FOO=\"1\"",
            "greet() {",
            "echo hello",
            "}",
            "echo hi",
        ]
    );
}

#[test]
fn transition_into_subdirectory_inherits_vars_not_runs() {
    let config = proj_config();
    let env: Vec<EnvVar> = vec![];
    let cache = Cache::from_config(&config, &env, "h1");
    let lines = emit(&cache, &config, "/proj", "/proj/sub");
    assert_eq!(
        lines,
        vec![
            "unset FOO",
            "unset -f greet &> /dev/null",
            "export FOO=\"1\"",
            "greet() {",
            "echo hello",
            "}",
        ]
    );
}

#[test]
fn no_op_transition_emits_nothing() {
    let config = proj_config();
    let env: Vec<EnvVar> = vec![];
    let cache = Cache::from_config(&config, &env, "h1");
    let lines = emit(&cache, &config, "/proj", "/proj");
    assert!(lines.is_empty());
}

#[test]
fn round_trip_unsets_exactly_what_was_set() {
    let config = proj_config();
    let env: Vec<EnvVar> = vec![];
    let cache = Cache::from_config(&config, &env, "h1");
    let into = emit(&cache, &config, "/tmp", "/proj");
    let back = emit(&cache, &config, "/proj", "/tmp");
    let set_names: Vec<String> = into
        .iter()
        .filter(|l| l.starts_with("export "))
        .map(|l| {
            let rest = &l["export ".len()..];
            rest[..rest.find('=').unwrap()].to_string()
        })
        .collect();
    let unset_names: Vec<String> = back
        .iter()
        .filter(|l| l.starts_with("unset ") && !l.starts_with("unset -f"))
        .map(|l| l["unset ".len()..].to_string())
        .collect();
    assert_eq!(set_names, vec!["FOO"]);
    assert_eq!(unset_names, set_names);
    assert!(back.contains(&"unset -f greet &> /dev/null".to_string()));
}

#[test]
fn prefix_rule_excludes_sibling_with_common_string_prefix() {
    let mut config = proj_config();
    config.directories[0].path = "/home/a".to_string();
    let env: Vec<EnvVar> = vec![];
    let cache = Cache::from_config(&config, &env, "h1");
    let lines = emit(&cache, &config, "/tmp", "/home/ab");
    assert!(lines.is_empty());
}

#[test]
fn global_sections_follow_their_rules() {
    let config = Config {
        config: Some(quiet_global("bash")),
        directories: vec![],
        variables: Some(vec![DirEnvVariable {
            name: "GV".to_string(),
            value: "g".to_string(),
            dirs: vec!["/scope".to_string()],
        }]),
        commands: Some(vec![EnvCommand {
            run: "echo global".to_string(),
            dirs: vec!["/scope".to_string()],
        }]),
        files: None,
        aliases: None,
    };
    let env: Vec<EnvVar> = vec![];
    let cache = Cache::from_config(&config, &env, "h1");
    // variables inherit into subdirectories, commands fire only exactly
    let sub = emit(&cache, &config, "/tmp", "/scope/inner");
    assert_eq!(sub, vec!["export GV=\"g\""]);
    let exact = emit(&cache, &config, "/tmp", "/scope");
    assert_eq!(exact, vec!["export GV=\"g\"", "echo global"]);
}

#[test]
fn invalid_shell_fails_only_when_aliases_needed() {
    let mut config = proj_config();
    config.config = Some(quiet_global("powershell"));
    let env: Vec<EnvVar> = vec![];
    let cache = Cache::from_config(&config, &env, "h1");
    let old_files = files_to_load(&cache, &config, "/tmp");
    let new_files = files_to_load(&cache, &config, "/proj");
    let oc: Vec<Option<String>> = old_files.iter().map(|_| None).collect();
    let nc: Vec<Option<String>> = new_files.iter().map(|_| None).collect();
    let r = run(&cache, &config, "/tmp", "/proj", &oc, &nc);
    assert_eq!(
        r.unwrap_err(),
        TransitionError::InvalidShell {
            shell: "powershell".to_string()
        }
    );
    // leaving the directory needs no alias definitions, so it succeeds
    let r2 = run(&cache, &config, "/proj", "/tmp", &nc, &oc);
    assert!(r2.is_ok());
}

#[test]
fn malformed_import_file_aborts_transition() {
    let mut config = proj_config();
    config.directories[0].load_from = Some(vec![".env".to_string()]);
    let env: Vec<EnvVar> = vec![];
    let cache = Cache::from_config(&config, &env, "h1");
    let old_files = files_to_load(&cache, &config, "/tmp");
    let new_files = files_to_load(&cache, &config, "/proj");
    assert_eq!(new_files, vec![".env"]);
    let oc: Vec<Option<String>> = old_files.iter().map(|_| None).collect();
    let nc: Vec<Option<String>> = vec![Some("A=1\nBAD".to_string())];
    let r = run(&cache, &config, "/tmp", "/proj", &oc, &nc);
    assert_eq!(
        r.unwrap_err(),
        TransitionError::Import {
            file: ".env".to_string(),
            line: 1,
            text: "BAD".to_string()
        }
    );
    // a missing file is silently skipped instead
    let nc_missing: Vec<Option<String>> = vec![None];
    let ok = run(&cache, &config, "/tmp", "/proj", &oc, &nc_missing).unwrap();
    assert!(ok.contains(&"export FOO=\"1\"".to_string()));
}

#[test]
fn import_file_variables_are_set_and_unset() {
    let mut config = proj_config();
    config.directories[0].load_from = Some(vec![".env".to_string()]);
    let env: Vec<EnvVar> = vec![];
    let cache = Cache::from_config(&config, &env, "h1");
    let contents = Some("FROM_FILE=\"quoted\"".to_string());
    let oc: Vec<Option<String>> = vec![];
    let nc: Vec<Option<String>> = vec![contents.clone()];
    let lines = run(&cache, &config, "/tmp", "/proj", &oc, &nc).unwrap();
    assert!(lines.contains(&"export FROM_FILE=\"quoted\"".to_string()));
    let back = run(&cache, &config, "/proj", "/tmp", &nc, &oc).unwrap();
    assert!(back.contains(&"unset FROM_FILE".to_string()));
}

#[test]
fn hints_are_emitted_when_enabled() {
    let mut config = proj_config();
    config.config = Some(GlobalConfig {
        shell: Some("bash".to_string()),
        cd_command: None,
        env_hints: Some(true),
        run_hints: Some(true),
        alias_hints: Some(true),
    });
    let env: Vec<EnvVar> = vec![];
    let cache = Cache::from_config(&config, &env, "h1");
    let lines = emit(&cache, &config, "/tmp", "/proj");
    assert_eq!(
        lines,
        vec![
            "echo \"cdwe: env: FOO\"",
            "export FOO=\"1\"",
            "echo \"cdwe: aliases: greet\"",
            "greet() {",
            "echo hello",
            "}",
            "echo \"cdwe: running echo hi\"",
            "echo hi",
        ]
    );
}

#[test]
fn resolver_queries_match_emitter() {
    let config = proj_config();
    let env: Vec<EnvVar> = vec![];
    let cache = Cache::from_config(&config, &env, "h1");
    let vars = vars_for_path(&cache, &config, "/proj/sub");
    assert_eq!(vars.len(), 1);
    assert_eq!(vars[0].name, "FOO");
    let aliases = aliases_for_path(&cache, &config, "/proj/sub");
    assert_eq!(aliases.len(), 1);
    assert_eq!(aliases[0].name, "greet");
    assert!(runs_for_path(&cache, &config, "/proj/sub").is_empty());
    assert_eq!(runs_for_path(&cache, &config, "/proj"), vec!["echo hi"]);
}

#[test]
fn direct_variable_queries_use_exact_first_match() {
    let config = proj_config();
    let vars = get_vars_to_set(&config, "/proj");
    assert_eq!(vars.len(), 1);
    assert_eq!(vars[0].key, "FOO");
    assert_eq!(vars[0].value, "1");
    assert!(get_vars_to_set(&config, "/proj/sub").is_empty());
    assert_eq!(get_vars_to_unset(&config, "/proj"), vec!["FOO"]);
}

#[test]
fn local_overlay_emits_after_warning_rules() {
    let local = LocalConfig {
        variables: Some(vec![EnvVariable {
            name: "L".to_string(),
            value: "v".to_string(),
        }]),
        aliases: Some(vec![EnvAlias {
            name: "la".to_string(),
            commands: vec!["echo l".to_string()],
        }]),
        commands: Some(vec!["echo cmd".to_string()]),
    };
    let (lines, warnings) = run_local(None, Some(&local), "bash");
    assert_eq!(
        lines,
        vec![
            "export L=\"v\"",
            "la() {",
            "echo l",
            "}",
            "echo cmd",
        ]
    );
    assert!(warnings.is_empty());
    // a bad shell downgrades alias definitions to a warning, commands still run
    let (lines2, warnings2) = run_local(None, Some(&local), "nushell");
    assert_eq!(lines2, vec!["export L=\"v\"", "echo cmd"]);
    assert_eq!(warnings2, vec!["misconfigured shell: nushell"]);
    // leaving a directory with an overlay unsets its names
    let (lines3, w3) = run_local(Some(&local), None, "bash");
    assert_eq!(lines3, vec!["unset L", "unset -f la &> /dev/null"]);
    assert!(w3.is_empty());
}

#[test]
fn cache_path_templating_applies_to_directory_paths() {
    let mut config = proj_config();
    config.directories[0].path = "{{HOME}}/proj".to_string();
    let env = vec![EnvVar {
        key: "HOME".to_string(),
        value: "/home/u".to_string(),
    }];
    let cache = Cache::from_config(&config, &env, "h1");
    assert!(cache.get("/home/u/proj").is_some());
    assert!(cache.get("{{HOME}}/proj").is_none());
    let lines = emit(&cache, &config, "/tmp", "/home/u/proj");
    assert!(lines.contains(&"export FOO=\"1\"".to_string()));
}

#[test]
fn later_directory_with_same_path_wins() {
    let mut config = proj_config();
    config.directories.push(EnvDirectory {
        path: "/proj".to_string(),
        vars: Some(EnvVariableStruct::EnvVariableVec(vec![EnvVariable {
            name: "BAR".to_string(),
            value: "2".to_string(),
        }])),
        load_from: None,
        run: None,
        aliases: None,
    });
    let env: Vec<EnvVar> = vec![];
    let cache = Cache::from_config(&config, &env, "h1");
    let d = cache.get("/proj").unwrap();
    assert_eq!(d.variables.len(), 1);
    assert_eq!(d.variables[0].name, "BAR");
    assert!(d.run.is_empty());
}

#[test]
fn global_files_inherit_and_global_aliases_apply() {
    let config = Config {
        config: Some(quiet_global("fish")),
        directories: vec![],
        variables: None,
        commands: None,
        files: Some(vec![EnvFile {
            load_from: "vars.env".to_string(),
            dirs: vec!["/scope".to_string()],
        }]),
        aliases: Some(vec![DirectoryEnvAlias {
            name: "ga".to_string(),
            commands: vec!["echo g".to_string()],
            paths: vec!["/scope".to_string()],
        }]),
    };
    let env: Vec<EnvVar> = vec![];
    let cache = Cache::from_config(&config, &env, "h1");
    // global file imports follow the prefix rule
    assert_eq!(files_to_load(&cache, &config, "/scope/deep"), vec!["vars.env"]);
    assert!(files_to_load(&cache, &config, "/elsewhere").is_empty());
    // global aliases follow the prefix rule and use the fish dialect
    let new_files = files_to_load(&cache, &config, "/scope/deep");
    let nc: Vec<Option<String>> = new_files.iter().map(|_| Some("K=v".to_string())).collect();
    let oc: Vec<Option<String>> = vec![];
    let lines = run(&cache, &config, "/tmp", "/scope/deep", &oc, &nc).unwrap();
    assert_eq!(
        lines,
        vec!["export K=\"v\"", "function ga", "echo g", "end"]
    );
}
