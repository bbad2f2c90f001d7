//! Behavior of the schema model: validation, generation, rendering, and the
//! value tree.

use appmgr::value::{Value, Config, TypeOf};
use appmgr::schema::{ConfigSpec, ValueSpec, NumRange, LenRange};
use appmgr::error::{MatchError, NoMatchWithPath, TimeoutError, ConfigurationError, ErrorKind};
use appmgr::rng::Rng;
use appmgr::pointer::{ValueSpecPointer, PackagePointerSpec, PackagePointerSpecVariant};

fn s(x: &str) -> String {
    String::from(x)
}

fn cfg(entries: Vec<(&str, Value)>) -> Config {
    let mut c = Config::new();
    for (k, v) in entries {
        c.insert(s(k), v);
    }
    c
}

fn num_field(name: &str, min: Option<i64>, max: Option<i64>) -> (String, ValueSpec) {
    (s(name), ValueSpec::Number { range: NumRange { min, max }, nullable: false })
}

#[test]
fn type_of_names() {
    assert_eq!(Value::Null.type_of(), "null");
    assert_eq!(Value::Bool(true).type_of(), "boolean");
    assert_eq!(Value::Number(3).type_of(), "number");
    assert_eq!(Value::Str(s("x")).type_of(), "string");
    assert_eq!(Value::List(vec![]).type_of(), "list");
    assert_eq!(Value::Obj(Config::new()).type_of(), "object");
}

#[test]
fn matches_accepts_legal_config() {
    let spec = ConfigSpec { fields: vec![num_field("x", Some(0), Some(5))] };
    let c = cfg(vec![("x", Value::Number(3))]);
    assert!(spec.matches(&c).is_ok());
}

#[test]
fn matches_rejects_out_of_range() {
    let spec = ConfigSpec { fields: vec![num_field("x", Some(0), Some(5))] };
    let c = cfg(vec![("x", Value::Number(9))]);
    let e = spec.matches(&c).unwrap_err();
    assert!(matches!(e.error, MatchError::OutOfRange(_, 9)));
    assert_eq!(e.path, vec![s("x")]);
    assert_eq!(e.render(), s("x: Number Out Of Range: actual 9"));
}

#[test]
fn matches_rejects_wrong_type_and_not_nullable() {
    let spec = ConfigSpec {
        fields: vec![
            (s("flag"), ValueSpec::Bool { nullable: false }),
            (s("name"), ValueSpec::Str { pattern: None, nullable: false }),
        ],
    };
    let c = cfg(vec![("flag", Value::Number(1)), ("name", Value::Str(s("ok")))]);
    let e = spec.matches(&c).unwrap_err();
    assert!(matches!(e.error, MatchError::InvalidType("boolean", "number")));

    let c2 = cfg(vec![("flag", Value::Bool(true)), ("name", Value::Null)]);
    let e2 = spec.matches(&c2).unwrap_err();
    assert!(matches!(e2.error, MatchError::NotNullable));
}

#[test]
fn matches_rejects_undeclared_key() {
    let spec = ConfigSpec { fields: vec![num_field("x", None, None)] };
    let c = cfg(vec![("x", Value::Number(1)), ("y", Value::Number(2))]);
    let e = spec.matches(&c).unwrap_err();
    assert!(matches!(e.error, MatchError::InvalidKey(_)));
}

#[test]
fn matches_pattern_and_enum() {
    let spec = ConfigSpec {
        fields: vec![
            (s("word"), ValueSpec::Str { pattern: Some(s("^[a-f]+$")), nullable: false }),
            (s("mode"), ValueSpec::Enum { values: vec![s("auto"), s("manual")] }),
        ],
    };
    let good = cfg(vec![("word", Value::Str(s("cafe"))), ("mode", Value::Str(s("manual")))]);
    assert!(spec.matches(&good).is_ok());

    let bad_word = cfg(vec![("word", Value::Str(s("xyz"))), ("mode", Value::Str(s("auto")))]);
    let e = spec.matches(&bad_word).unwrap_err();
    assert!(matches!(e.error, MatchError::Pattern(_, _)));

    let bad_mode = cfg(vec![("word", Value::Str(s("abc"))), ("mode", Value::Str(s("off")))]);
    let e2 = spec.matches(&bad_mode).unwrap_err();
    assert!(matches!(e2.error, MatchError::Enum(_, _)));
    assert_eq!(e2.render(), s("mode: String off Is Not In Enum [auto, manual]"));
}

#[test]
fn matches_list_length_and_uniqueness() {
    let spec = ConfigSpec {
        fields: vec![(
            s("items"),
            ValueSpec::List {
                inner: Box::new(ValueSpec::Number {
                    range: NumRange { min: None, max: None },
                    nullable: false,
                }),
                len: LenRange { min: 1, max: Some(3) },
                unique: true,
            },
        )],
    };
    let good = cfg(vec![("items", Value::List(vec![Value::Number(1), Value::Number(2)]))]);
    assert!(spec.matches(&good).is_ok());

    let too_long = cfg(vec![(
        "items",
        Value::List(vec![
            Value::Number(1),
            Value::Number(2),
            Value::Number(3),
            Value::Number(4),
        ]),
    )]);
    let e = spec.matches(&too_long).unwrap_err();
    assert!(matches!(e.error, MatchError::LengthMismatch(_, 4)));
    assert_eq!(e.render(), s("items: Length Mismatch: actual 4"));

    let dup = cfg(vec![("items", Value::List(vec![Value::Number(7), Value::Number(7)]))]);
    let e2 = spec.matches(&dup).unwrap_err();
    assert!(matches!(e2.error, MatchError::ListUniquenessViolation));
}

#[test]
fn matches_union_tag_rules() {
    let spec = ConfigSpec {
        fields: vec![(
            s("conn"),
            ValueSpec::Union {
                tag: s("type"),
                variants: vec![
                    (s("tcp"), ConfigSpec { fields: vec![num_field("port", Some(1), Some(65535))] }),
                    (s("unix"), ConfigSpec {
                        fields: vec![(s("path"), ValueSpec::Str { pattern: None, nullable: false })],
                    }),
                ],
            },
        )],
    };
    let good = cfg(vec![(
        "conn",
        Value::Obj(cfg(vec![("type", Value::Str(s("tcp"))), ("port", Value::Number(80))])),
    )]);
    assert!(spec.matches(&good).is_ok());

    let missing_tag = cfg(vec![("conn", Value::Obj(cfg(vec![("port", Value::Number(80))])))]);
    let e = spec.matches(&missing_tag).unwrap_err();
    assert!(matches!(e.error, MatchError::MissingTag(_)));

    let bad_variant = cfg(vec![(
        "conn",
        Value::Obj(cfg(vec![("type", Value::Str(s("udp"))), ("port", Value::Number(80))])),
    )]);
    let e2 = spec.matches(&bad_variant).unwrap_err();
    assert!(matches!(e2.error, MatchError::Union(_, _)));

    let extra = cfg(vec![(
        "conn",
        Value::Obj(cfg(vec![
            ("type", Value::Str(s("unix"))),
            ("path", Value::Str(s("/run/x"))),
            ("port", Value::Number(80)),
        ])),
    )]);
    let e3 = spec.matches(&extra).unwrap_err();
    assert!(matches!(e3.error, MatchError::InvalidKey(_)));
}

#[test]
fn matches_union_authoring_collision() {
    let spec = ConfigSpec {
        fields: vec![(
            s("conn"),
            ValueSpec::Union {
                tag: s("type"),
                variants: vec![(
                    s("tcp"),
                    ConfigSpec {
                        fields: vec![(s("type"), ValueSpec::Bool { nullable: false })],
                    },
                )],
            },
        )],
    };
    let v = cfg(vec![(
        "conn",
        Value::Obj(cfg(vec![("type", Value::Str(s("tcp")))])),
    )]);
    let e = spec.matches(&v).unwrap_err();
    assert!(matches!(e.error, MatchError::PropertyMatchesUnionTag(_, _)));
}

#[test]
fn generate_then_matches_succeeds() {
    // Generation produces a structurally valid value: whatever it returns
    // validates against the schema it was generated from.
    let spec = ConfigSpec {
        fields: vec![
            (s("flag"), ValueSpec::Bool { nullable: false }),
            num_field("count", Some(-3), Some(12)),
            (s("word"), ValueSpec::Str { pattern: Some(s("^[a-m]+$")), nullable: false }),
            (s("mode"), ValueSpec::Enum { values: vec![s("auto"), s("manual")] }),
            (
                s("nested"),
                ValueSpec::Obj {
                    spec: ConfigSpec { fields: vec![num_field("inner", Some(0), Some(1))] },
                    nullable: false,
                },
            ),
            (
                s("conn"),
                ValueSpec::Union {
                    tag: s("type"),
                    variants: vec![
                        (s("tcp"), ConfigSpec { fields: vec![num_field("port", Some(1), Some(9))] }),
                        (s("none"), ConfigSpec { fields: vec![] }),
                    ],
                },
            ),
        ],
    };
    let mut rng = Rng::seeded(424242);
    for _ in 0..20 {
        let generated = spec.gen(&mut rng, 10_000).expect("generation within budget");
        assert!(spec.matches(&generated).is_ok());
    }
}

#[test]
fn generate_times_out_on_exhausted_budget() {
    let spec = ConfigSpec {
        fields: vec![(s("word"), ValueSpec::Str { pattern: Some(s("^[a-f]+$")), nullable: false })],
    };
    let mut rng = Rng::seeded(1);
    assert!(matches!(spec.gen(&mut rng, 0), Err(TimeoutError)));
}

#[test]
fn generate_times_out_on_empty_enum() {
    let spec = ConfigSpec { fields: vec![(s("mode"), ValueSpec::Enum { values: vec![] })] };
    let mut rng = Rng::seeded(1);
    assert!(matches!(spec.gen(&mut rng, 50), Err(TimeoutError)));
}

#[test]
fn pointers_are_collected_in_walk_order() {
    let ptr = ValueSpecPointer::Package(PackagePointerSpec {
        package_id: s("dep"),
        target: PackagePointerSpecVariant::Config { selector: vec![s("x")], multi: false },
    });
    let spec = ConfigSpec {
        fields: vec![
            num_field("a", None, None),
            (s("p"), ValueSpec::Pointer { ptr }),
        ],
    };
    let c = cfg(vec![("a", Value::Number(1)), ("p", Value::Null)]);
    let ptrs = spec.pointers(&c);
    assert_eq!(ptrs.len(), 1);
    match &ptrs[0] {
        ValueSpecPointer::Package(p) => {
            assert_eq!(p.package_id, s("dep"));
            assert!(matches!(&p.target, PackagePointerSpecVariant::Config { selector, multi: false }
                if selector == &vec![s("x")]));
        }
        _ => panic!("expected a package pointer"),
    }
}

#[test]
fn no_match_render_shows_path_root_to_leaf() {
    let e = NoMatchWithPath::new(MatchError::NotNullable).prepend(s("leaf")).prepend(s("root"));
    assert_eq!(e.render(), s("root.leaf: Field Is Not Nullable"));
}

#[test]
fn configuration_error_classification() {
    let timeout = ConfigurationError::TimeoutError(TimeoutError).into_error();
    assert_eq!(timeout.kind, ErrorKind::Timeout);
    assert_eq!(timeout.message, s("Timeout Error"));

    let nomatch = ConfigurationError::NoMatch(NoMatchWithPath::new(MatchError::NotNullable))
        .into_error();
    assert_eq!(nomatch.kind, ErrorKind::ConfigGen);
    assert_eq!(nomatch.message, s(": Field Is Not Nullable"));
}

#[test]
fn config_insert_replaces_in_place_and_preserves_order() {
    let mut c = Config::new();
    c.insert(s("a"), Value::Number(1));
    c.insert(s("b"), Value::Number(2));
    c.insert(s("a"), Value::Number(9));
    assert_eq!(c.len(), 2);
    assert_eq!(c.entries[0].0, s("a"));
    assert!(matches!(c.entries[0].1, Value::Number(9)));
    assert_eq!(c.entries[1].0, s("b"));
    assert!(c.get(&s("c")).is_none());
}

#[test]
fn deep_eq_is_structural() {
    let a = cfg(vec![("k", Value::List(vec![Value::Str(s("v")), Value::Null]))]);
    let b = cfg(vec![("k", Value::List(vec![Value::Str(s("v")), Value::Null]))]);
    let c = cfg(vec![("k", Value::List(vec![Value::Str(s("w")), Value::Null]))]);
    assert!(a.deep_eq(&b));
    assert!(!a.deep_eq(&c));
    assert!(a.deep_clone().deep_eq(&a));
}
