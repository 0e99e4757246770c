use cmdflags::flag::{Flag, FlagType, FlagValue};
use cmdflags::text::read_int;

fn bits(v: &FlagValue) -> Option<u64> {
    match v {
        FlagValue::Float(b) => Some(*b),
        _ => None,
    }
}

#[test]
fn type_names() {
    assert_eq!(FlagType::Bool.name(), "Bool");
    assert_eq!(FlagType::String.name(), "String");
    assert_eq!(FlagType::Int.name(), "Int");
    assert_eq!(FlagType::Float.name(), "Float");
}

#[test]
fn zero_values() {
    assert!(matches!(FlagType::Bool.type_default(), FlagValue::Bool(false)));
    assert!(matches!(FlagType::Int.type_default(), FlagValue::Int(0)));
    assert_eq!(bits(&FlagType::Float.type_default()), Some(0.0f64.to_bits()));
    match FlagType::String.type_default() {
        FlagValue::String(s) => assert_eq!(s, ""),
        _ => panic!("not a string"),
    }
}

#[test]
fn type_of_agrees_with_tag() {
    let values = vec![
        FlagValue::Bool(true),
        FlagValue::String(String::from("x")),
        FlagValue::Int(-3),
        FlagValue::Float(1.5f64.to_bits()),
        FlagValue::Absent,
    ];
    let types = [FlagType::Bool, FlagType::String, FlagType::Int, FlagType::Float];
    for t in types.iter() {
        for v in values.iter() {
            assert_eq!(t.is_type_of(v), v.get_type() == Some(*t));
            assert_eq!(v.is_type(t), t.is_type_of(v));
        }
        assert!(!t.is_type_of(&FlagValue::Absent));
    }
    assert_eq!(FlagValue::Absent.get_type(), None);
    assert_eq!(FlagValue::Int(5).get_type(), Some(FlagType::Int));
}

#[test]
fn bool_reads_only_exact_literals() {
    assert!(matches!(FlagType::Bool.parse_from_text("true", None), Some(FlagValue::Bool(true))));
    assert!(matches!(FlagType::Bool.parse_from_text("false", None), Some(FlagValue::Bool(false))));
    for s in ["True", "FALSE", "1", "0", "yes", "", " true"] {
        assert!(FlagType::Bool.parse_from_text(s, None).is_none());
        assert!(matches!(FlagType::Bool.getValueFromString(s, None), FlagValue::Absent));
    }
}

#[test]
fn int_reading() {
    assert!(matches!(FlagType::Int.parse_from_text("42", None), Some(FlagValue::Int(42))));
    assert!(matches!(FlagType::Int.parse_from_text("-17", None), Some(FlagValue::Int(-17))));
    assert!(matches!(FlagType::Int.parse_from_text("+8", None), Some(FlagValue::Int(8))));
    assert!(matches!(FlagType::Int.parse_from_text("007", None), Some(FlagValue::Int(7))));
    for s in ["", "-", "+", "12a", "4 2", "notanumber", "1.5", "--3"] {
        assert!(FlagType::Int.parse_from_text(s, None).is_none());
    }
}

#[test]
fn int_reading_limits() {
    let max = isize::MAX.to_string();
    let min = isize::MIN.to_string();
    assert_eq!(read_int(&max), Some(isize::MAX));
    assert_eq!(read_int(&min), Some(isize::MIN));
    assert_eq!(read_int(&format!("{}0", max)), None);
    assert_eq!(read_int("99999999999999999999999"), None);
    assert_eq!(read_int("-99999999999999999999999"), None);
}

#[test]
fn string_and_float_reading() {
    match FlagType::String.parse_from_text("any text", None) {
        Some(FlagValue::String(s)) => assert_eq!(s, "any text"),
        _ => panic!("not a string"),
    }
    let r = FlagType::Float.parse_from_text("2.5", Some(2.5f64.to_bits()));
    assert_eq!(r.as_ref().and_then(bits), Some(2.5f64.to_bits()));
    assert!(FlagType::Float.parse_from_text("x", None).is_none());
}

#[test]
fn new_flag_takes_zero_default() {
    let f = Flag::new("count", "how many", FlagType::Int);
    assert_eq!(f.name, "count");
    assert_eq!(f.usage, "how many");
    assert!(f.short_alias.is_empty());
    assert!(f.long_alias.is_empty());
    assert!(matches!(f.default_value, FlagValue::Int(0)));
}

#[test]
fn build_new_replaces_mismatched_default() {
    let f = Flag::build_new(
        String::from("port"),
        String::from("port"),
        vec![String::from("p")],
        vec![],
        FlagType::Int,
        FlagValue::String(String::from("eighty")),
    );
    assert!(matches!(f.default_value, FlagValue::Int(0)));
    let g = Flag::build_new(
        String::from("port"),
        String::from("port"),
        vec![],
        vec![],
        FlagType::Int,
        FlagValue::Int(80),
    );
    assert!(matches!(g.default_value, FlagValue::Int(80)));
    let h = Flag::build_new(
        String::from("on"),
        String::new(),
        vec![],
        vec![],
        FlagType::Bool,
        FlagValue::Absent,
    );
    assert!(matches!(h.default_value, FlagValue::Bool(false)));
}

#[test]
fn default_value_keeps_type() {
    let f = Flag::new("level", "", FlagType::Int).default_value(FlagValue::Int(3));
    assert!(matches!(f.default_value, FlagValue::Int(3)));
    let g = f.default_value(FlagValue::Bool(true));
    assert!(matches!(g.default_value, FlagValue::Int(3)));
}

#[test]
fn aliases_and_lookup() {
    let f = Flag::new("verbose", "", FlagType::Bool).short("v").alias("loud").usage("talk more");
    assert_eq!(f.usage, "talk more");
    assert!(f.is("verbose"));
    assert!(!f.is("Verbose"));
    assert!(f.is_short("v"));
    assert!(!f.is_short("V"));
    assert!(f.is_long("loud"));
    assert!(!f.is_long("verbose"));
    let bare = Flag::new("x", "", FlagType::Bool);
    assert!(!bare.is_short("x"));
    assert!(!bare.is_long("x"));
}

#[test]
fn defaults_of_types() {
    assert_eq!(FlagType::default(), FlagType::String);
    assert!(matches!(FlagValue::default(), FlagValue::Absent));
    let f = Flag::default();
    assert_eq!(f.name, "");
    assert_eq!(f.flag_type, FlagType::String);
    assert!(matches!(&f.default_value, FlagValue::String(s) if s.is_empty()));
    assert!(f.flag_type.is_type_of(&f.default_value));
}

#[test]
fn aliases_are_kept_distinct() {
    let f = Flag::new("verbose", "", FlagType::Bool).short("v").short("v").alias("loud").alias("loud");
    assert_eq!(f.short_alias, vec![String::from("v")]);
    assert_eq!(f.long_alias, vec![String::from("loud")]);
    let g = f.short("w").alias("noisy");
    assert_eq!(g.short_alias, vec![String::from("v"), String::from("w")]);
    assert_eq!(g.long_alias, vec![String::from("loud"), String::from("noisy")]);
}

#[test]
fn flag_types_are_ordered() {
    assert!(FlagType::Bool < FlagType::String);
    assert!(FlagType::String < FlagType::Int);
    assert!(FlagType::Int < FlagType::Float);
}
