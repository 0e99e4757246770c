use cmdflags::command::{Action, BuildError, Command, Invocation, ResolveError};
use cmdflags::flag::{Flag, FlagType, FlagValue};

fn strings(v: &[&str]) -> Vec<String> {
    v.iter().map(|s| String::from(*s)).collect()
}

fn readings(args: &[String]) -> Vec<Option<u64>> {
    args.iter().map(|a| a.parse::<f64>().ok().map(f64::to_bits)).collect()
}

fn run(root: &Command, args: &[&str]) -> Result<Invocation, ResolveError> {
    let a = strings(args);
    root.resolve(&a, &readings(&a))
}

fn int_of(inv: &Invocation, name: &str) -> Option<isize> {
    match inv.context.get(name) {
        Some(FlagValue::Int(i)) => Some(*i),
        _ => None,
    }
}

fn bool_of(inv: &Invocation, name: &str) -> Option<bool> {
    match inv.context.get(name) {
        Some(FlagValue::Bool(b)) => Some(*b),
        _ => None,
    }
}

fn counter() -> Command {
    Command::new("app")
        .flag(Flag::new("count", "", FlagType::Int))
        .unwrap()
        .action(Action { id: 1 })
}

fn server() -> Command {
    let serve = Command::new("serve")
        .flag(Flag::new("port", "", FlagType::Int).default_value(FlagValue::Int(80)))
        .unwrap()
        .action(Action { id: 2 });
    Command::new("app")
        .flag(Flag::new("verbose", "", FlagType::Bool).short("v"))
        .unwrap()
        .subcommand(serve)
        .unwrap()
        .action(Action { id: 1 })
}

#[test]
fn explicit_int_and_default() {
    let root = counter();
    let inv = run(&root, &["--count", "42"]).unwrap();
    assert_eq!(inv.action, Action { id: 1 });
    assert_eq!(int_of(&inv, "count"), Some(42));
    let inv = run(&root, &[]).unwrap();
    assert_eq!(int_of(&inv, "count"), Some(0));
}

#[test]
fn short_bool_overrides_default() {
    let root = Command::new("app")
        .flag(Flag::new("verbose", "", FlagType::Bool).default_value(FlagValue::Bool(false)).short("v"))
        .unwrap()
        .action(Action { id: 7 });
    let inv = run(&root, &["-v"]).unwrap();
    assert_eq!(bool_of(&inv, "verbose"), Some(true));
    let inv = run(&root, &[]).unwrap();
    assert_eq!(bool_of(&inv, "verbose"), Some(false));
}

#[test]
fn bool_takes_explicit_literal() {
    let root = Command::new("app")
        .flag(Flag::new("verbose", "", FlagType::Bool).short("v"))
        .unwrap()
        .action(Action { id: 7 });
    let inv = run(&root, &["-v", "false", "rest"]).unwrap();
    assert_eq!(bool_of(&inv, "verbose"), Some(false));
    assert_eq!(inv.context.positional(), &strings(&["rest"]));
    let inv = run(&root, &["-v", "rest"]).unwrap();
    assert_eq!(bool_of(&inv, "verbose"), Some(true));
    assert_eq!(inv.context.positional(), &strings(&["rest"]));
}

#[test]
fn subcommand_binds_its_flags() {
    let root = server();
    let inv = run(&root, &["serve", "--port", "8080"]).unwrap();
    assert_eq!(inv.action, Action { id: 2 });
    assert_eq!(int_of(&inv, "port"), Some(8080));
    let inv = run(&root, &["serve"]).unwrap();
    assert_eq!(inv.action, Action { id: 2 });
    assert_eq!(int_of(&inv, "port"), Some(80));
    assert_eq!(bool_of(&inv, "verbose"), Some(false));
}

#[test]
fn ancestor_flags_stay_visible() {
    let root = server();
    let inv = run(&root, &["serve", "-v"]).unwrap();
    assert_eq!(bool_of(&inv, "verbose"), Some(true));
    assert_eq!(int_of(&inv, "port"), Some(80));
}

#[test]
fn bad_int_is_parse_failure() {
    let root = Command::new("app")
        .flag(Flag::new("port", "", FlagType::Int))
        .unwrap()
        .action(Action { id: 1 });
    assert!(matches!(run(&root, &["--port", "notanumber"]), Err(ResolveError::ParseFailure { index: 0 })));
}

#[test]
fn missing_value() {
    let root = counter();
    assert!(matches!(run(&root, &["x", "--count"]), Err(ResolveError::MissingValue { index: 1 })));
}

#[test]
fn unknown_flag() {
    let root = counter();
    assert!(matches!(run(&root, &["--nope"]), Err(ResolveError::UnknownToken { index: 0 })));
    assert!(matches!(run(&root, &["a", "-c"]), Err(ResolveError::UnknownToken { index: 1 })));
}

#[test]
fn bare_token_is_positional() {
    let root = counter();
    let inv = run(&root, &["bogus"]).unwrap();
    assert_eq!(inv.context.positional(), &strings(&["bogus"]));
    assert_eq!(int_of(&inv, "count"), Some(0));
    assert!(inv.context.get("bogus").is_none());
    let inv = run(&root, &["-", "--", "b"]).unwrap();
    assert_eq!(inv.context.positional(), &strings(&["-", "--", "b"]));
}

#[test]
fn no_action_bound() {
    let root = Command::new("app").subcommand(Command::new("idle")).unwrap().action(Action { id: 1 });
    assert!(matches!(run(&root, &["idle"]), Err(ResolveError::NoActionBound)));
    assert!(run(&root, &[]).is_ok());
}

#[test]
fn last_occurrence_wins() {
    let root = counter();
    let inv = run(&root, &["--count", "1", "--count", "2"]).unwrap();
    assert_eq!(int_of(&inv, "count"), Some(2));
}

#[test]
fn long_alias_and_float() {
    let root = Command::new("app")
        .flag(Flag::new("ratio", "", FlagType::Float).alias("r2"))
        .unwrap()
        .action(Action { id: 3 });
    let inv = run(&root, &["--r2", "0.25"]).unwrap();
    assert!(matches!(inv.context.get("ratio"), Some(FlagValue::Float(b)) if *b == 0.25f64.to_bits()));
    assert!(matches!(run(&root, &["--ratio", "zero"]), Err(ResolveError::ParseFailure { index: 0 })));
}

#[test]
fn repeated_resolution_agrees() {
    let root = server();
    let a = run(&root, &["serve", "--port", "9", "x"]).unwrap();
    let b = run(&root, &["serve", "--port", "9", "x"]).unwrap();
    assert_eq!(a.action, b.action);
    assert_eq!(a.context.values.len(), b.context.values.len());
    for (x, y) in a.context.values.iter().zip(b.context.values.iter()) {
        assert_eq!(x.0, y.0);
        assert_eq!(x.1, y.1);
    }
    assert_eq!(a.context.args, b.context.args);
}

#[test]
fn clashing_flags_refused() {
    let c = Command::new("app").flag(Flag::new("verbose", "", FlagType::Bool).short("v")).unwrap();
    assert!(matches!(c.flag(Flag::new("version", "", FlagType::Bool).short("v")), Err(BuildError::FlagClash)));
    let c = Command::new("app").flag(Flag::new("verbose", "", FlagType::Bool)).unwrap();
    assert!(matches!(c.flag(Flag::new("loud", "", FlagType::Bool).alias("verbose")), Err(BuildError::FlagClash)));
    let c = Command::new("app").flag(Flag::new("verbose", "", FlagType::Bool).short("v")).unwrap();
    assert!(matches!(c.flag(Flag::new("v", "", FlagType::Bool)), Err(BuildError::FlagClash)));
    let c = Command::new("app").flag(Flag::new("verbose", "", FlagType::Bool).short("v")).unwrap();
    assert!(c.flag(Flag::new("quiet", "", FlagType::Bool).short("q").alias("silent")).is_ok());
}

#[test]
fn duplicate_subcommand_refused() {
    let c = Command::new("app").subcommand(Command::new("run")).unwrap();
    assert!(matches!(c.subcommand(Command::new("run")), Err(BuildError::DuplicateCommand)));
}
