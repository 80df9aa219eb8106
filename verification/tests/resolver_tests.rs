use ldenv::errors::LdenvError;
use ldenv::resolver::resolve_argument;
use ldenv::resolver::resolve_arguments;
use ldenv::store::EnvStore;

fn store_of(pairs: &[(&str, &str)]) -> EnvStore {
    let mut s = EnvStore::new();
    for (k, v) in pairs {
        s.set(&k.to_string(), &v.to_string());
    }
    s
}

#[test]
fn prefix_value_suffix() {
    let s = store_of(&[("FOO", "bar")]);
    let r = resolve_argument(&s, &"pre@@FOO@:suf".to_string());
    assert_eq!(r, Ok("prebarsuf".to_string()));
}

#[test]
fn default_used_when_unbound() {
    let s = store_of(&[]);
    let r = resolve_argument(&s, &"@@FOO@:default@:".to_string());
    assert_eq!(r, Ok("default".to_string()));
}

#[test]
fn empty_default_is_allowed() {
    let s = store_of(&[]);
    let r = resolve_argument(&s, &"@@FOO@:@:".to_string());
    assert_eq!(r, Ok("".to_string()));
}

#[test]
fn unbound_without_default_fails_naming_variable() {
    let s = store_of(&[]);
    let r = resolve_argument(&s, &"@@FOO".to_string());
    match r {
        Err(LdenvError::UnresolvedPlaceholder { segment, attempted }) => {
            assert_eq!(segment, "FOO");
            assert_eq!(attempted, "FOO");
        }
        other => panic!("expected an unresolved-placeholder error, got {:?}", other),
    }
}

#[test]
fn unresolved_message_names_variable_and_hint() {
    let s = store_of(&[]);
    let e = resolve_argument(&s, &"@@FOO".to_string()).unwrap_err();
    let msg = e.message();
    assert_eq!(
        msg,
        "error: @@FOO was specified in the command but there is no env variable named FOO.\n\
         To prevent this error you can provide a default value with '@@FOO@:<default value>@:'\n\
         An empty default can be specified with '@@FOO@:@:'"
    );
}

#[test]
fn alias_chain_builds_composite_name() {
    // `a:LEVEL:b` expands to a1b when LEVEL=1; a1b bound.
    let s = store_of(&[("LEVEL", "1"), ("a1b", "deep")]);
    let r = resolve_argument(&s, &"@@a:LEVEL:b@:x@:".to_string());
    assert_eq!(r, Ok("deep".to_string()));
}

#[test]
fn alias_chain_falls_back_to_default() {
    let s = store_of(&[("LEVEL", "1")]);
    let r = resolve_argument(&s, &"@@a:LEVEL:b@:x@:".to_string());
    assert_eq!(r, Ok("x".to_string()));
}

#[test]
fn alias_chain_failure_names_expanded_name() {
    let s = store_of(&[("LEVEL", "1")]);
    let r = resolve_argument(&s, &"@@a:LEVEL:b".to_string());
    match r {
        Err(LdenvError::UnresolvedPlaceholder { segment, attempted }) => {
            assert_eq!(segment, "a:LEVEL:b");
            assert_eq!(attempted, "a1b");
        }
        other => panic!("expected an unresolved-placeholder error, got {:?}", other),
    }
}

#[test]
fn missing_alias_piece_expands_to_empty() {
    // LEVEL unbound: the composite name is plain `ab`.
    let s = store_of(&[("ab", "joined")]);
    let r = resolve_argument(&s, &"@@a:LEVEL:b".to_string());
    assert_eq!(r, Ok("joined".to_string()));
}

#[test]
fn alternation_takes_first_bound_name() {
    let s = store_of(&[("SECOND", "two")]);
    let r = resolve_argument(&s, &"@@FIRST,SECOND@:suf".to_string());
    assert_eq!(r, Ok("twosuf".to_string()));
}

#[test]
fn alternation_prefers_earlier_bound_name() {
    let s = store_of(&[("FIRST", "one"), ("SECOND", "two")]);
    let r = resolve_argument(&s, &"@@FIRST,SECOND".to_string());
    assert_eq!(r, Ok("one".to_string()));
}

#[test]
fn empty_variable_expression_is_fatal() {
    let s = store_of(&[]);
    let r = resolve_argument(&s, &"a@@@:x".to_string());
    match r {
        Err(LdenvError::EmptyPlaceholderName { segment }) => {
            assert_eq!(segment, "@:x");
        }
        other => panic!("expected an empty-placeholder error, got {:?}", other),
    }
}

#[test]
fn trailing_symbol_in_argument_is_empty_placeholder() {
    let s = store_of(&[]);
    let r = resolve_argument(&s, &"x@@".to_string());
    match r {
        Err(LdenvError::EmptyPlaceholderName { segment }) => {
            assert_eq!(segment, "");
        }
        other => panic!("expected an empty-placeholder error, got {:?}", other),
    }
}

#[test]
fn mode_variable_is_visible_to_substitution() {
    let s = store_of(&[("MODE", "staging")]);
    let r = resolve_argument(&s, &"--mode=@@MODE".to_string());
    assert_eq!(r, Ok("--mode=staging".to_string()));
}

#[test]
fn literal_only_argument_passes_through() {
    let s = store_of(&[("FOO", "bar")]);
    let r = resolve_argument(&s, &"plain text".to_string());
    assert_eq!(r, Ok("plain text".to_string()));
}

#[test]
fn resolving_resolved_output_again_is_a_no_op() {
    let s = store_of(&[("FOO", "bar")]);
    let once = resolve_argument(&s, &"pre@@FOO@:suf".to_string()).unwrap();
    let twice = resolve_argument(&s, &once).unwrap();
    assert_eq!(twice, once);
}

#[test]
fn multiple_placeholders_in_one_argument() {
    let s = store_of(&[("A", "1"), ("B", "2")]);
    let r = resolve_argument(&s, &"x@@A@:-@@B@:!".to_string());
    assert_eq!(r, Ok("x1-2!".to_string()));
}

#[test]
fn suffix_without_default_keeps_single_separator_text() {
    // One `@:` means: no default, the rest is a suffix.
    let s = store_of(&[]);
    let r = resolve_argument(&s, &"@@FOO@:suf".to_string());
    match r {
        Err(LdenvError::UnresolvedPlaceholder { segment, attempted }) => {
            assert_eq!(segment, "FOO@:suf");
            assert_eq!(attempted, "FOO");
        }
        other => panic!("expected an unresolved-placeholder error, got {:?}", other),
    }
}

#[test]
fn extra_separator_parts_are_dropped() {
    let s = store_of(&[]);
    let r = resolve_argument(&s, &"@@FOO@:def@:suf@:extra".to_string());
    assert_eq!(r, Ok("defsuf".to_string()));
}

#[test]
fn arguments_resolved_in_order_first_error_wins() {
    let s = store_of(&[("A", "1")]);
    let args = vec!["@@A".to_string(), "@@MISSING".to_string(), "@@ALSO_MISSING".to_string()];
    let r = resolve_arguments(&s, &args, false);
    match r {
        Err(LdenvError::UnresolvedPlaceholder { segment, .. }) => {
            assert_eq!(segment, "MISSING");
        }
        other => panic!("expected an unresolved-placeholder error, got {:?}", other),
    }
}

#[test]
fn argument_list_is_resolved_elementwise() {
    let s = store_of(&[("A", "1"), ("B", "2")]);
    let args = vec!["run".to_string(), "@@A".to_string(), "--b=@@B".to_string()];
    let r = resolve_arguments(&s, &args, false);
    assert_eq!(
        r,
        Ok(vec!["run".to_string(), "1".to_string(), "--b=2".to_string()])
    );
}

#[test]
fn skip_flag_passes_every_argument_through() {
    let s = store_of(&[("FOO", "bar")]);
    let args = vec!["@@FOO".to_string(), "pre@@FOO@:suf".to_string(), "@@".to_string()];
    let r = resolve_arguments(&s, &args, true);
    assert_eq!(r, Ok(args.clone()));
}
