use cdwe::config::{Config, EnvVariable, EnvVariableStruct, GlobalConfig};
use cdwe::envfile::parse_env_file;
use cdwe::matching::{match_exact, match_prefix};
use cdwe::shell::Shell;
use cdwe::template::insert_env_var_into_path;
use cdwe::utils::{get_content_hash, trim_quotes};
use sha2::Digest;
use cdwe::vars::EnvVar;

#[test]
fn test_trim_quotes() {
    assert_eq!(trim_quotes("\"test\""), "test");
    assert_eq!(trim_quotes("'test'"), "test");
    assert_eq!(trim_quotes("test"), "test");
    assert_eq!(trim_quotes("\"test"), "\"test");
    assert_eq!(trim_quotes("test'"), "test'");
}

#[test]
fn test_parse_env_file() {
    let test_content = "# THIS IS A TEST COMMMENT\n\
                        TEST_VAR=true\n\
                        ANOTHER_VAR=123\n\
                        QUOTED_VAR=\"test\"\n\
                        # ANOTHER TEST COMMENT\n\
                        SINGLE_QUOTED_VAR='test'\n\
                        ANOTHER_VAR=hello world this is a test\n";

    let expected: Vec<EnvVariable> = vec![
        EnvVariable {
            name: "TEST_VAR".to_string(),
            value: "true".to_string(),
        },
        EnvVariable {
            name: "ANOTHER_VAR".to_string(),
            value: "123".to_string(),
        },
        EnvVariable {
            name: "QUOTED_VAR".to_string(),
            value: "test".to_string(),
        },
        EnvVariable {
            name: "SINGLE_QUOTED_VAR".to_string(),
            value: "test".to_string(),
        },
        EnvVariable {
            name: "ANOTHER_VAR".to_string(),
            value: "hello world this is a test".to_string(),
        },
    ];

    assert_eq!(parse_env_file(test_content, "/.env").unwrap(), expected);
}

#[test]
fn test_insert_env_var_into_path() {
    let env = vec![
        EnvVar {
            key: "TEST_HOME".to_string(),
            value: "/home/user".to_string(),
        },
        EnvVar {
            key: "TEST_NAME".to_string(),
            value: "testing".to_string(),
        },
    ];
    assert_eq!(
        insert_env_var_into_path("{{TEST_HOME}}/testing", &env),
        "/home/user/testing"
    );
    assert_eq!(
        insert_env_var_into_path("{{TEST_HOME}}/{{TEST_NAME}}", &env),
        "/home/user/testing"
    );
    assert_eq!(
        insert_env_var_into_path("{{DOES_NOT_EXIST}}/{{TEST_NAME}}", &env),
        "{{DOES_NOT_EXIST}}/testing"
    );
    assert_eq!(
        insert_env_var_into_path("/home/user/testing", &env),
        "/home/user/testing"
    );
}

#[test]
fn test_parse_env_file_reports_bad_line() {
    // the line without a separator is the third kept line: 0-based index 2
    let content = "A=1\n#comment\nB=2\nC";
    let parsed = parse_env_file(content, ".env");
    let err = parsed.unwrap_err();
    assert_eq!(err.file, ".env");
    assert_eq!(err.line, 2);
    assert_eq!(err.text, "C");
}

#[test]
fn test_parse_env_file_example() {
    let parsed = parse_env_file("A=1\n#comment\nB=2", ".env").unwrap();
    assert_eq!(parsed.len(), 2);
    assert_eq!(parsed[0].name, "A");
    assert_eq!(parsed[0].value, "1");
    assert_eq!(parsed[1].name, "B");
    assert_eq!(parsed[1].value, "2");
}

#[test]
fn test_match_prefix_component_boundary() {
    assert!(match_prefix("/home/a", "/home/a"));
    assert!(match_prefix("/home/a", "/home/a/b"));
    assert!(!match_prefix("/home/a", "/home/ab"));
    assert!(!match_prefix("/home/a/b", "/home/a"));
    assert!(match_prefix("/", "/x"));
}

#[test]
fn test_match_exact() {
    assert!(match_exact("/home/a", "/home/a"));
    assert!(!match_exact("/home/a", "/home/a/b"));
    assert!(!match_exact("/home/a", "/home/ab"));
}

#[test]
fn test_content_hash_stable_and_sensitive() {
    let a = get_content_hash("some config text");
    let b = get_content_hash("some config text");
    let c = get_content_hash("some config texT");
    assert_eq!(a, b);
    assert_ne!(a, c);
    // the wrapper is not the identity
    assert_ne!(a, "some config text");
    // it agrees with a direct digest of the same bytes
    let mut hasher = sha2::Sha256::new();
    hasher.update("some config text".as_bytes());
    assert_eq!(a, format!("{:?}", hasher.finalize()));
}

#[test]
fn test_shell_names_round() {
    assert_eq!(Shell::Bash.to_string(), "bash");
    assert_eq!(Shell::Fish.to_string(), "fish");
    assert_eq!(Shell::Zsh.to_string(), "zsh");
    assert_eq!(Shell::from_string("bash").unwrap(), Shell::Bash);
    assert_eq!(Shell::from_string("fish").unwrap(), Shell::Fish);
    assert_eq!(Shell::from_string("zsh").unwrap(), Shell::Zsh);
    assert!(Shell::from_string("powershell").is_err());
}

#[test]
fn test_shell_paths_and_commands() {
    assert_eq!(Shell::Bash.get_config_path("/home/u"), "/home/u/.bashrc");
    assert_eq!(
        Shell::Fish.get_config_path("/home/u"),
        "/home/u/.config/fish/config.fish"
    );
    assert_eq!(Shell::Zsh.get_config_path("/home/u"), "/home/u/.zshrc");
    assert_eq!(
        Shell::Bash.get_shell_script_target("/home/u"),
        "/home/u/.cdwe.bash"
    );
    assert_eq!(Shell::Bash.get_default_command(), "builtin cd");
    assert_eq!(Shell::Fish.get_default_command(), "cd");
    let (start, end) = Shell::Bash.get_alias_command();
    assert_eq!(start, "{{{alias_name}}}() {");
    assert_eq!(end, "}");
    let (fstart, fend) = Shell::Fish.get_alias_command();
    assert_eq!(fstart, "function {{{alias_name}}}");
    assert_eq!(fend, "end");
}

#[test]
fn test_shell_script_has_placeholders() {
    let script = Shell::Bash.get_shell_script();
    assert!(script.contains("{{{exec_path}}}"));
    assert!(script.contains("{{{cd_command}}}"));
}

#[test]
fn test_config_defaults() {
    let c = Config::default();
    assert!(c.config.is_none());
    assert!(c.directories.is_empty());
    let g = GlobalConfig::default();
    assert_eq!(g.env_hints, Some(true));
    assert_eq!(g.run_hints, Some(true));
    assert_eq!(g.alias_hints, Some(true));
    let d = Config::default_for_shell(Shell::Zsh);
    assert_eq!(d.config.as_ref().unwrap().shell.as_deref(), Some("zsh"));
    assert_eq!(d.directories.len(), 1);
    assert_eq!(d.directories[0].path, "~");
}

#[test]
fn test_normalize_both_shapes() {
    let mapping = EnvVariableStruct::Mapping(vec![
        ("A".to_string(), "1".to_string()),
        ("B".to_string(), "2".to_string()),
    ]);
    let listed = EnvVariableStruct::EnvVariableVec(vec![EnvVariable {
        name: "C".to_string(),
        value: "3".to_string(),
    }]);
    let m = mapping.normalize();
    assert_eq!(m.len(), 2);
    assert_eq!(m[0].name, "A");
    assert_eq!(m[0].value, "1");
    assert_eq!(m[1].name, "B");
    let l = listed.normalize();
    assert_eq!(l.len(), 1);
    assert_eq!(l[0].name, "C");
}
