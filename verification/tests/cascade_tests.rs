use ldenv::assembler::extract_mode_override;
use ldenv::assembler::require_command;
use ldenv::cascade::cascade_paths;
use ldenv::cascade::discover_mode_env_name;
use ldenv::cascade::resolve_mode;
use ldenv::cascade::FileOutcome;
use ldenv::errors::LdenvError;
use ldenv::store::EnvStore;

fn pairs(list: &[(&str, &str)]) -> Vec<(String, String)> {
    list.iter().map(|(k, v)| (k.to_string(), v.to_string())).collect()
}

#[test]
fn local_layer_wins_over_base_layer() {
    // .env.local is merged before .env, so its value for a shared key wins.
    let mut store = EnvStore::new();
    store.apply_layer(&pairs(&[("K", "local"), ("ONLY_LOCAL", "a")]));
    store.apply_layer(&pairs(&[("K", "base"), ("ONLY_BASE", "b")]));
    assert_eq!(store.get(&"K".to_string()), Some(&"local".to_string()));
    assert_eq!(store.get(&"ONLY_LOCAL".to_string()), Some(&"a".to_string()));
    assert_eq!(store.get(&"ONLY_BASE".to_string()), Some(&"b".to_string()));
}

#[test]
fn ambient_binding_wins_over_every_layer() {
    let mut store = EnvStore::new();
    store.set(&"K".to_string(), &"ambient".to_string());
    store.apply_layer(&pairs(&[("K", "local")]));
    assert_eq!(store.get(&"K".to_string()), Some(&"ambient".to_string()));
}

#[test]
fn first_binding_within_one_file_wins() {
    let mut store = EnvStore::new();
    store.apply_layer(&pairs(&[("K", "first"), ("K", "second")]));
    assert_eq!(store.get(&"K".to_string()), Some(&"first".to_string()));
}

#[test]
fn prod_mode_tries_four_files_in_order() {
    let paths = cascade_paths(&"prod".to_string());
    assert_eq!(
        paths,
        vec![
            ".env.prod.local".to_string(),
            ".env.prod".to_string(),
            ".env.local".to_string(),
            ".env".to_string(),
        ]
    );
}

#[test]
fn local_mode_tries_only_two_files() {
    let paths = cascade_paths(&"local".to_string());
    assert_eq!(paths, vec![".env.local".to_string(), ".env".to_string()]);
}

#[test]
fn mode_precedence_explicit_then_cmd_then_ambient_then_local() {
    let spec = Some("fromargs".to_string());
    let cmd = Some("fromcmd".to_string());
    let amb = Some("fromenv".to_string());
    assert_eq!(resolve_mode(&spec, &cmd, &amb), "fromargs");
    assert_eq!(resolve_mode(&None, &cmd, &amb), "fromcmd");
    assert_eq!(resolve_mode(&None, &None, &amb), "fromenv");
    assert_eq!(resolve_mode(&None, &None, &None), "local");
}

#[test]
fn mode_env_name_discovery_chain() {
    let cli = Some("CLI_NAME".to_string());
    let local = Some(pairs(&[("OTHER", "x"), ("MODE_ENV", "FROM_LOCAL")]));
    let envf = Some(pairs(&[("MODE_ENV", "FROM_ENV")]));
    let amb = Some("FROM_AMBIENT".to_string());
    assert_eq!(discover_mode_env_name(&cli, &local, &envf, &amb), "CLI_NAME");
    assert_eq!(discover_mode_env_name(&None, &local, &envf, &amb), "FROM_LOCAL");
    assert_eq!(discover_mode_env_name(&None, &None, &envf, &amb), "FROM_ENV");
    let no_match = Some(pairs(&[("OTHER", "x")]));
    assert_eq!(
        discover_mode_env_name(&None, &no_match, &no_match, &amb),
        "FROM_AMBIENT"
    );
    assert_eq!(discover_mode_env_name(&None, &None, &None, &None), "MODE");
}

#[test]
fn missing_file_is_skipped_silently() {
    let mut store = EnvStore::new();
    let r = store.apply_file_outcome(&".env.prod".to_string(), FileOutcome::NotFound);
    assert_eq!(r, Ok(false));
    assert_eq!(store.get(&"K".to_string()), None);
}

#[test]
fn unreadable_file_is_fatal_naming_path_and_cause() {
    let mut store = EnvStore::new();
    let r = store.apply_file_outcome(
        &".env.prod".to_string(),
        FileOutcome::Failed("bad line 3".to_string()),
    );
    match r {
        Err(e @ LdenvError::FileAccess { .. }) => {
            assert_eq!(
                e.message(),
                "error: failed to load environment from .env.prod: bad line 3"
            );
        }
        other => panic!("expected a file-access error, got {:?}", other),
    }
}

#[test]
fn found_file_is_merged() {
    let mut store = EnvStore::new();
    let r = store.apply_file_outcome(
        &".env".to_string(),
        FileOutcome::Found(pairs(&[("K", "v")])),
    );
    assert_eq!(r, Ok(true));
    assert_eq!(store.get(&"K".to_string()), Some(&"v".to_string()));
}

#[test]
fn mode_override_extraction() {
    let args: Vec<String> = vec!["@@".into(), "staging".into(), "--flag".into()];
    let r = extract_mode_override(&args, &None, &"MODE".to_string());
    assert_eq!(r, Ok((vec!["--flag".to_string()], Some("staging".to_string()))));
}

#[test]
fn later_mode_override_wins() {
    let args: Vec<String> = vec!["@@".into(), "one".into(), "a".into(), "@@".into(), "two".into()];
    let r = extract_mode_override(&args, &None, &"MODE".to_string());
    assert_eq!(r, Ok((vec!["a".to_string()], Some("two".to_string()))));
}

#[test]
fn trailing_symbol_without_cmd_mode_is_fatal() {
    let args: Vec<String> = vec!["a".into(), "@@".into()];
    let r = extract_mode_override(&args, &None, &"MODE".to_string());
    match r {
        Err(e @ LdenvError::MissingModeArgument { .. }) => {
            assert_eq!(
                e.message(),
                "error: expect to be provided a mode (which set the MODE env variable) as last argument"
            );
        }
        other => panic!("expected a missing-mode error, got {:?}", other),
    }
}

#[test]
fn trailing_symbol_with_cmd_mode_is_dropped() {
    let args: Vec<String> = vec!["a".into(), "@@".into()];
    let r = extract_mode_override(&args, &Some("prod".to_string()), &"MODE".to_string());
    assert_eq!(r, Ok((vec!["a".to_string()], None)));
}

#[test]
fn empty_mode_value_is_fatal() {
    let args: Vec<String> = vec!["@@".into(), "".into(), "a".into()];
    let r = extract_mode_override(&args, &None, &"MODE".to_string());
    match r {
        Err(LdenvError::EmptyModeValue) => {}
        other => panic!("expected an empty-mode error, got {:?}", other),
    }
}

#[test]
fn arguments_without_symbol_are_kept_in_order() {
    let args: Vec<String> = vec!["a".into(), "b".into(), "c".into()];
    let r = extract_mode_override(&args, &None, &"MODE".to_string());
    assert_eq!(r, Ok((vec!["a".to_string(), "b".to_string(), "c".to_string()], None)));
}

#[test]
fn command_is_required() {
    assert_eq!(
        require_command(&Some("run".to_string())),
        Ok("run".to_string())
    );
    match require_command(&None) {
        Err(e @ LdenvError::MissingCommand) => {
            assert_eq!(e.message(), "error: missing required argument <COMMAND>");
        }
        other => panic!("expected a missing-command error, got {:?}", other),
    }
}

#[test]
fn store_set_overwrites_and_set_if_absent_keeps() {
    let mut store = EnvStore::new();
    store.set(&"K".to_string(), &"one".to_string());
    store.set(&"K".to_string(), &"two".to_string());
    assert_eq!(store.get(&"K".to_string()), Some(&"two".to_string()));
    store.set_if_absent(&"K".to_string(), &"three".to_string());
    assert_eq!(store.get(&"K".to_string()), Some(&"two".to_string()));
    store.set_if_absent(&"L".to_string(), &"new".to_string());
    assert_eq!(store.get(&"L".to_string()), Some(&"new".to_string()));
}

#[test]
fn store_entries_lists_each_key_once() {
    let mut store = EnvStore::new();
    store.set(&"A".to_string(), &"1".to_string());
    store.set(&"B".to_string(), &"2".to_string());
    store.set(&"A".to_string(), &"3".to_string());
    let mut entries = store.entries().clone();
    entries.sort();
    assert_eq!(
        entries,
        vec![("A".to_string(), "3".to_string()), ("B".to_string(), "2".to_string())]
    );
}

#[test]
fn full_pipeline_for_a_staging_invocation() {
    // `run @@ staging --flag` with a cascade defining FLAG: the child
    // argv is `run --flag` after substitution, the mode `staging`.
    let args: Vec<String> = vec!["@@".into(), "staging".into(), "--flag".into()];
    let (kept, mode) = extract_mode_override(&args, &None, &"MODE".to_string()).unwrap();
    let mode = resolve_mode(&mode, &None, &None);
    assert_eq!(mode, "staging");
    let mut store = EnvStore::new();
    store.set(&"MODE".to_string(), &mode);
    let paths = cascade_paths(&mode);
    assert_eq!(paths[0], ".env.staging.local");
    let resolved = ldenv::resolver::resolve_arguments(&store, &kept, false).unwrap();
    assert_eq!(resolved, vec!["--flag".to_string()]);
    let program = require_command(&Some("run".to_string())).unwrap();
    assert_eq!(program, "run");
}
