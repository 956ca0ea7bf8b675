use rust_env::{same_text, split_text, Env, ParseError, Str, Vct, Wrapper};

fn scalar(w: &Wrapper) -> Option<String> {
    match w {
        Wrapper::Str(v) => Some(v.clone()),
        _ => None,
    }
}

fn list(w: &Wrapper) -> Option<Vec<String>> {
    match w {
        Wrapper::Vec(v) => Some(v.clone()),
        _ => None,
    }
}

fn is_empty(w: &Wrapper) -> bool {
    matches!(w, Wrapper::Empty)
}

fn empty_store() -> Env {
    Env::upload("./.env", vec![]).0
}

fn strings(v: &[&str]) -> Vec<String> {
    v.iter().map(|s| s.to_string()).collect()
}

#[test]
fn marshal_single_scalar() {
    assert_eq!(Env::marshal(vec![Str("PORT", "6779")]), "PORT=6779".to_string());
}

#[test]
fn marshal_lists_end_with_semicolon() {
    assert_eq!(Env::marshal(vec![Vct("IP", vec!["127", "0", "0", "1"])]), "IP=127;0;0;1;");
    assert_eq!(Env::marshal(vec![Vct("K", vec!["a"])]), "K=a;");
    assert_eq!(Env::marshal(vec![Vct("K", vec![])]), "K=;");
}

#[test]
fn marshal_joins_without_separator() {
    let text = Env::marshal(vec![
        Str("A", "1"),
        Vct("B", vec!["x", "y"]),
        rust_env::Hash::Placeholder,
        Str("C", ""),
    ]);
    assert_eq!(text, "A=1B=x;y;=C=");
}

#[test]
fn parse_scalars() {
    let env = Env::parse("PORT=6778\nHOST=127.0.0.1").unwrap();
    assert_eq!(env.len(), 2);
    match &env[0] {
        rust_env::Hash::Str(k, v) => {
            assert_eq!(k, "PORT");
            assert_eq!(v, "6778");
        }
        _ => panic!("expected a single value"),
    }
    match &env[1] {
        rust_env::Hash::Str(k, v) => {
            assert_eq!(k, "HOST");
            assert_eq!(v, "127.0.0.1");
        }
        _ => panic!("expected a single value"),
    }
}

#[test]
fn parse_list_keeps_trailing_empty_value() {
    let env = Env::parse("IP=a;b;").unwrap();
    match &env[0] {
        rust_env::Hash::Vec(k, vs) => {
            assert_eq!(k, "IP");
            assert_eq!(vs, &strings(&["a", "b", ""]));
        }
        _ => panic!("expected a list"),
    }
}

#[test]
fn parse_value_stops_at_second_equals() {
    let env = Env::parse("A=b=c").unwrap();
    match &env[0] {
        rust_env::Hash::Str(k, v) => {
            assert_eq!(k, "A");
            assert_eq!(v, "b");
        }
        _ => panic!("expected a single value"),
    }
}

#[test]
fn parse_empty_text_fails() {
    assert_eq!(Env::parse("").unwrap_err(), ParseError::MalformedLine(0));
}

#[test]
fn parse_trailing_newline_fails() {
    assert_eq!(Env::parse("A=1\n").unwrap_err(), ParseError::MalformedLine(1));
}

#[test]
fn parse_reports_first_malformed_line() {
    assert_eq!(Env::parse("A=1\nB\nC").unwrap_err(), ParseError::MalformedLine(1));
}

#[test]
fn raw_on_empty_store() {
    let mut env = empty_store();
    env.raw("PORT=6779\nIP=127;0;0;1").unwrap();
    let local = env.get_debug();
    assert_eq!(local.len(), 2);
    match &local[0] {
        rust_env::Hash::Str(k, v) => {
            assert_eq!(k, "PORT");
            assert_eq!(v, "6779");
        }
        _ => panic!("expected a single value"),
    }
    match &local[1] {
        rust_env::Hash::Vec(k, vs) => {
            assert_eq!(k, "IP");
            assert_eq!(vs, &strings(&["127", "0", "0", "1"]));
        }
        _ => panic!("expected a list"),
    }
}

#[test]
fn raw_failure_keeps_store() {
    let mut env = empty_store();
    env.raw("A=1").unwrap();
    assert_eq!(env.raw("B=2\nC"), Err(ParseError::MalformedLine(1)));
    assert_eq!(env.entries().len(), 1);
    assert!(is_empty(&env.get_local("B")));
}

#[test]
fn upload_writes_scalar_line() {
    let (mut env, text) = Env::upload("./env", vec![Str("PORT", "6778")]);
    assert_eq!(text, "PORT=6778\n");
    assert_eq!(scalar(&env.get_local("PORT")), Some("6778".to_string()));
    assert_eq!(scalar(&env.get_hash("PORT")), Some("6778".to_string()));
    assert_eq!(env.path(), "./env");
}

#[test]
fn upload_mixed_pairs() {
    let (env, text) = Env::upload(
        "./env",
        vec![Str("PORT", "6778"), Vct("IP", vec!["127", "0", "0"]), rust_env::Hash::Placeholder, Str("A", "b")],
    );
    assert_eq!(text, "PORT=6778\nIP=127;0;0;A=b\n");
    assert_eq!(env.entries().len(), 3);
    assert_eq!(list(&env.get_local("IP")), Some(strings(&["127", "0", "0"])));
    assert!(env.globals().is_empty());
}

#[test]
fn empty_list_gets_semicolon() {
    let mut env = Env::new("./config.env", "A=1").unwrap();
    assert_eq!(env.set(Vct("IP", vec![])), "IP=;");
    let (_, text) = Env::upload("./env", vec![Vct("IP", vec![]), Str("A", "1")]);
    assert_eq!(text, "IP=;A=1\n");
}

#[test]
fn new_parses_content() {
    let env = Env::new("./config.env", "PORT=6779\nIP=127;0;0;1").unwrap();
    assert_eq!(env.path(), "./config.env");
    assert_eq!(scalar(&env.get_local("PORT")), Some("6779".to_string()));
    assert_eq!(list(&env.get_local("IP")), Some(strings(&["127", "0", "0", "1"])));
    assert!(Env::new("./config.env", "").is_err());
}

#[test]
fn set_returns_only_the_new_pair() {
    let mut env = Env::new("./config.env", "A=1").unwrap();
    let text = env.set(Str("PORT", "6778"));
    assert_eq!(text, "PORT=6778");
    assert_eq!(env.entries().len(), 2);
    assert_eq!(scalar(&env.get_local("PORT")), Some("6778".to_string()));
    let text = env.set(Vct("IP", vec!["1", "2"]));
    assert_eq!(text, "IP=1;2;");
}

#[test]
fn global_shadows_local() {
    let mut env = Env::new("./config.env", "FOO=1").unwrap();
    env.global_env(vec![("FOO".to_string(), "2".to_string())]);
    assert_eq!(scalar(&env.get_hash("FOO")), Some("2".to_string()));
    assert_eq!(scalar(&env.get_local("FOO")), Some("1".to_string()));
}

#[test]
fn get_hash_falls_back_to_local() {
    let mut env = Env::new("./config.env", "FOO=1\nIP=1;2").unwrap();
    env.global_env(vec![("BAR".to_string(), "2".to_string())]);
    assert_eq!(scalar(&env.get_hash("FOO")), Some("1".to_string()));
    assert_eq!(list(&env.get_hash("IP")), Some(strings(&["1", "2"])));
    assert!(is_empty(&env.get_hash("NONE")));
}

#[test]
fn scopes_are_separate() {
    let mut env = Env::new("./config.env", "LOCAL=1").unwrap();
    env.global_env(vec![("GLOBAL".to_string(), "2".to_string())]);
    assert!(is_empty(&env.get_local("GLOBAL")));
    assert!(is_empty(&env.get_global("LOCAL")));
    assert!(is_empty(&env.get_local("ABSENT")));
    assert!(is_empty(&env.get_global("ABSENT")));
}

#[test]
fn first_duplicate_wins() {
    let env = Env::new("./config.env", "K=1\nK=2").unwrap();
    assert_eq!(scalar(&env.get_local("K")), Some("1".to_string()));
}

#[test]
fn global_env_twice_duplicates() {
    let mut env = empty_store();
    let vars = vec![("A".to_string(), "1".to_string()), ("B".to_string(), "2".to_string())];
    env.global_env(vars.clone());
    env.global_env(vars);
    assert_eq!(env.globals().len(), 4);
    assert_eq!(scalar(&env.get_global("A")), Some("1".to_string()));
    assert_eq!(scalar(&env.get_global("B")), Some("2".to_string()));
}

#[test]
fn round_trip_scalar_lines() {
    let text = "PORT=6779\nHOST=localhost\nEMPTY=";
    let entries = Env::parse(text).unwrap();
    let lines: Vec<String> = entries.into_iter().map(|e| Env::marshal(vec![e])).collect();
    assert_eq!(lines.join("\n"), text);
}

#[test]
fn list_line_gains_semicolon() {
    let entries = Env::parse("IP=127;0;0;1").unwrap();
    assert_eq!(Env::marshal(entries), "IP=127;0;0;1;");
}

#[test]
fn builders_copy_text() {
    match Vct("IP", vec!["1", "2"]) {
        rust_env::Hash::Vec(k, vs) => {
            assert_eq!(k, "IP");
            assert_eq!(vs, strings(&["1", "2"]));
        }
        _ => panic!("expected a list"),
    }
    match Str("A", "b") {
        rust_env::Hash::Str(k, v) => {
            assert_eq!(k, "A");
            assert_eq!(v, "b");
        }
        _ => panic!("expected a single value"),
    }
}

#[test]
fn split_text_pieces() {
    assert_eq!(split_text("a;b;", ';'), strings(&["a", "b", ""]));
    assert_eq!(split_text("", ';'), strings(&[""]));
    assert_eq!(split_text("abc", ';'), strings(&["abc"]));
}

#[test]
fn same_text_compares() {
    assert!(same_text("PORT", "PORT"));
    assert!(!same_text("PORT", "PORTS"));
    assert!(!same_text("PORT", "port"));
    assert!(same_text("", ""));
}
