use sandbox::strmap::StrMap;
use sandbox::utils::{resolve_env_vars, substitute_env_vars};

fn env_of(pairs: &[(&str, &str)]) -> StrMap<String> {
    let mut env = StrMap::new();
    for (k, v) in pairs {
        env.insert(k.to_string(), v.to_string());
    }
    env
}

#[test]
fn resolves_a_set_variable() {
    let env = env_of(&[("HOME", "/home/user")]);
    assert_eq!(resolve_env_vars(&"$HOME/docs".to_string(), &env), "/home/user/docs");
}

#[test]
fn unset_variable_becomes_empty() {
    let env = env_of(&[("HOME", "/home/user")]);
    assert_eq!(resolve_env_vars(&"$NOPE/x".to_string(), &env), "/x");
}

#[test]
fn text_without_references_is_unchanged() {
    let env = env_of(&[("HOME", "/home/user")]);
    assert_eq!(resolve_env_vars(&"/usr/lib".to_string(), &env), "/usr/lib");
    assert_eq!(resolve_env_vars(&"".to_string(), &env), "");
}

#[test]
fn adjacent_references_are_each_replaced() {
    let env = env_of(&[("A", "1"), ("B", "2")]);
    assert_eq!(resolve_env_vars(&"$A$B".to_string(), &env), "12");
    assert_eq!(resolve_env_vars(&"x$A-y$B-z".to_string(), &env), "x1-y2-z");
}

#[test]
fn lone_dollar_is_kept() {
    let env = env_of(&[("A", "1")]);
    assert_eq!(resolve_env_vars(&"cost: $ 5".to_string(), &env), "cost: $ 5");
    assert_eq!(resolve_env_vars(&"end$".to_string(), &env), "end$");
}

#[test]
fn name_runs_over_all_word_characters() {
    let env = env_of(&[("HOME", "/home/user")]);
    assert_eq!(resolve_env_vars(&"$HOME_DIR/a".to_string(), &env), "/a");
}

#[test]
fn unicode_text_and_names() {
    let env = env_of(&[("X", "ß"), ("Xü", "ok")]);
    assert_eq!(resolve_env_vars(&"é$X/ü".to_string(), &env), "éß/ü");
    assert_eq!(resolve_env_vars(&"é$Xü".to_string(), &env), "éok");
}

#[test]
fn later_insert_replaces_value() {
    let env = env_of(&[("A", "1"), ("A", "2")]);
    assert_eq!(env.len(), 1);
    assert_eq!(resolve_env_vars(&"$A".to_string(), &env), "2");
}

#[test]
fn substitutes_given_spans() {
    let env = env_of(&[("X", "1"), ("YY", "22")]);
    let input = "a$X b$YY".to_string();
    assert_eq!(substitute_env_vars(&input, &vec![(1, 3), (5, 8)], &env), "a1 b22");
    assert_eq!(substitute_env_vars(&input, &vec![(5, 8)], &env), "a$X b22");
    assert_eq!(substitute_env_vars(&input, &vec![], &env), "a$X b$YY");
    // A span that does not start with `$` names no variable and is dropped.
    assert_eq!(substitute_env_vars(&input, &vec![(0, 1)], &env), "$X b$YY");
}
