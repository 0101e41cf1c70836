use cdwe::cache::{get_or_create_cache, Cache, CacheEntry, DirCache};
use cdwe::codec::{parse_cache, serialize_cache};
use cdwe::config::{Config, EnvAlias, EnvDirectory, EnvVariable, EnvVariableStruct, GlobalConfig};
use cdwe::utils::get_content_hash;
use cdwe::vars::EnvVar;

fn sample_cache() -> Cache {
    Cache::new(
        "bash".to_string(),
        "hash-1".to_string(),
        vec![
            CacheEntry {
                path: "/proj".to_string(),
                dir: DirCache {
                    variables: vec![EnvVariable {
                        name: "FOO".to_string(),
                        value: "1".to_string(),
                    }],
                    run: vec!["echo hi".to_string()],
                    aliases: vec![EnvAlias {
                        name: "greet".to_string(),
                        commands: vec!["echo hello".to_string()],
                    }],
                    load_from: vec![".env".to_string()],
                },
            },
            CacheEntry {
                path: "/other".to_string(),
                dir: DirCache {
                    variables: vec![],
                    run: vec![],
                    aliases: vec![],
                    load_from: vec![],
                },
            },
        ],
    )
}

#[test]
fn cache_round_trip_reproduces_values_and_hash() {
    let cache = sample_cache();
    let text = serialize_cache(&cache);
    let parsed = parse_cache(&text).unwrap();
    assert_eq!(parsed, cache);
    assert_eq!(parsed.hash, "hash-1");
    assert_eq!(parsed.shell, "bash");
    assert_eq!(parsed.values.len(), 2);
}

#[test]
fn cache_round_trip_survives_awkward_strings() {
    let cache = Cache::new(
        "zsh".to_string(),
        "h".to_string(),
        vec![CacheEntry {
            path: "/with \"quotes\"\\and\nnewlines\ttabs".to_string(),
            dir: DirCache {
                variables: vec![EnvVariable {
                    name: "X".to_string(),
                    value: "a\"b\\c\nd\re\tf".to_string(),
                }],
                run: vec![],
                aliases: vec![],
                load_from: vec![],
            },
        }],
    );
    let text = serialize_cache(&cache);
    let parsed = parse_cache(&text).unwrap();
    assert_eq!(parsed, cache);
}

#[test]
fn serialized_cache_is_json_shaped() {
    let cache = Cache::new("bash".to_string(), "h".to_string(), vec![]);
    let text = serialize_cache(&cache);
    assert_eq!(text, "{\"shell\":\"bash\",\"hash\":\"h\",\"values\":{}}");
}

#[test]
fn unreadable_cache_text_is_refused() {
    assert!(parse_cache("").is_none());
    assert!(parse_cache("not json").is_none());
    assert!(parse_cache("{\"shell\":\"bash\"}").is_none());
    // trailing garbage after a valid document is refused too
    let text = serialize_cache(&sample_cache());
    let mut with_tail = text.clone();
    with_tail.push(' ');
    assert!(parse_cache(&with_tail).is_none());
}

fn one_dir_config() -> Config {
    Config {
        config: Some(GlobalConfig {
            shell: Some("bash".to_string()),
            cd_command: None,
            env_hints: Some(false),
            run_hints: Some(false),
            alias_hints: Some(false),
        }),
        directories: vec![EnvDirectory {
            path: "/proj".to_string(),
            vars: Some(EnvVariableStruct::EnvVariableVec(vec![EnvVariable {
                name: "FOO".to_string(),
                value: "1".to_string(),
            }])),
            load_from: None,
            run: None,
            aliases: None,
        }],
        variables: None,
        commands: None,
        files: None,
        aliases: None,
    }
}

#[test]
fn matching_hash_reuses_stored_cache() {
    let config = one_dir_config();
    let env: Vec<EnvVar> = vec![];
    let config_text = "the config text";
    let hash = get_content_hash(config_text);
    let built = Cache::from_config(&config, &env, &hash);
    let stored = serialize_cache(&built);
    let (cache, rebuilt) = get_or_create_cache(Some(&stored), &config, &env, &hash);
    assert!(!rebuilt);
    assert_eq!(cache, built);
}

#[test]
fn changed_configuration_text_forces_rebuild() {
    let config = one_dir_config();
    let env: Vec<EnvVar> = vec![];
    let old_hash = get_content_hash("config text, first shape");
    let new_hash = get_content_hash("config text, second shape");
    assert_ne!(old_hash, new_hash);
    let stored = serialize_cache(&Cache::from_config(&config, &env, &old_hash));
    let (cache, rebuilt) = get_or_create_cache(Some(&stored), &config, &env, &new_hash);
    assert!(rebuilt);
    assert_eq!(cache.hash, new_hash);
    assert!(cache.get("/proj").is_some());
}

#[test]
fn corrupt_or_missing_cache_falls_back_to_rebuild() {
    let config = one_dir_config();
    let env: Vec<EnvVar> = vec![];
    let (c1, r1) = get_or_create_cache(None, &config, &env, "h");
    assert!(r1);
    assert_eq!(c1.shell, "bash");
    let (c2, r2) = get_or_create_cache(Some("{corrupt"), &config, &env, "h");
    assert!(r2);
    assert_eq!(c2.hash, "h");
    assert!(c2.get("/proj").is_some());
}

#[test]
fn cache_get_is_exact_only() {
    let config = one_dir_config();
    let env: Vec<EnvVar> = vec![];
    let cache = Cache::from_config(&config, &env, "h");
    assert!(cache.get("/proj").is_some());
    assert!(cache.get("/proj/sub").is_none());
    assert!(cache.get("/pro").is_none());
    let d = cache.get("/proj").unwrap();
    assert_eq!(d.variables.len(), 1);
    assert_eq!(d.variables[0].name, "FOO");
}

#[test]
fn parser_is_strict_about_shape() {
    // reordered keys are not the canonical rendering
    assert!(parse_cache("{\"hash\":\"h\",\"shell\":\"bash\",\"values\":{}}").is_none());
    // whitespace is not part of the canonical rendering
    assert!(parse_cache("{\"shell\": \"bash\",\"hash\":\"h\",\"values\":{}}").is_none());
    // an unterminated string is refused
    assert!(parse_cache("{\"shell\":\"bash").is_none());
}
