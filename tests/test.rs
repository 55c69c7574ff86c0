use enum_map::diagnostic::{Diagnostic, ErrorKind, Expected, Param};
use enum_map::directive::Directive;
use enum_map::emit::{FnKind, GeneratedFn};
use enum_map::enum_map;
use enum_map::input::{Attribute, Token, TokenKind, Variant};
use enum_map::resolve::Mappings;

/// Splits annotation arguments written as text into tokens; locations count
/// from `base`.
fn lex(text: &str, base: usize) -> Vec<Token> {
    let chars: Vec<char> = text.chars().collect();
    let mut out = Vec::new();
    let mut i = 0;
    while i < chars.len() {
        let c = chars[i];
        let span = base + i;
        if c.is_whitespace() {
            i += 1;
        } else if c == '"' {
            let mut j = i + 1;
            while chars[j] != '"' {
                j += 1;
            }
            let s: String = chars[i + 1..j].iter().collect();
            out.push(Token { kind: TokenKind::Str(s), span });
            i = j + 1;
        } else if c.is_alphanumeric() || c == '_' {
            let mut j = i;
            while j < chars.len() && (chars[j].is_alphanumeric() || chars[j] == '_' || chars[j] == '#') {
                j += 1;
            }
            let w: String = chars[i..j].iter().collect();
            let w = w.strip_prefix("r#").map(String::from).unwrap_or(w);
            let kind = if w == "true" || w.chars().all(|c| c.is_ascii_digit()) {
                TokenKind::Other
            } else {
                TokenKind::Ident(w)
            };
            out.push(Token { kind, span });
            i = j;
        } else {
            out.push(Token { kind: TokenKind::Punct(c), span });
            i += 1;
        }
    }
    out
}

fn attr(path: &str, args: &str, span: usize) -> Attribute {
    Attribute { path: vec![String::from(path)], args: lex(args, span + 1), span }
}

/// A variant whose annotations are `mapstr(...)` with the given arguments.
fn variant(ident: &str, has_fields: bool, mapstrs: &[&str]) -> Variant {
    let attrs = mapstrs
        .iter()
        .enumerate()
        .map(|(k, a)| attr("mapstr", a, 1000 * (k + 1)))
        .collect();
    Variant { ident: String::from(ident), has_fields, attrs }
}

fn plain(ident: &str, mapstrs: &[&str]) -> Variant {
    variant(ident, false, mapstrs)
}

fn generate(vs: Vec<Variant>) -> Vec<GeneratedFn> {
    match enum_map(&vs) {
        Ok(f) => f,
        Err(e) => panic!("unexpected errors: {:?}", e),
    }
}

/// Calls the generated function `name` on `input`.
fn call(fns: &[GeneratedFn], name: &str, input: &str) -> Option<String> {
    let f = fns
        .iter()
        .find(|f| f.fn_name() == name)
        .unwrap_or_else(|| panic!("no function {name}"));
    f.call(&String::from(input))
}

fn has(fns: &[GeneratedFn], name: &str) -> bool {
    fns.iter().any(|f| f.fn_name() == name)
}

fn some(s: &str) -> Option<String> {
    Some(String::from(s))
}

#[test]
fn test() {
    let failing: Vec<Vec<Variant>> = vec![
        vec![plain("V1", &[""])],
        vec![plain("V1", &[r#""fa""#])],
        vec![plain("V1", &[r#"name="fas""#])],
        vec![plain("V1", &[r#""fa", name="n", "faas""#])],
        vec![plain("V1", &[r#""fa", name="n", fas"#])],
        vec![plain("V1", &[r#""fa", name="n",  nasdf="faas""#])],
        vec![plain("V1", &[r#""fa", name="n", name=true"#])],
        vec![plain("V1", &[r#""fa", name="n",  default_from="fa""#])],
    ];
    for vs in failing {
        assert!(enum_map(&vs).is_err());
    }
    let other_attr = Variant {
        ident: String::from("V1"),
        has_fields: false,
        attrs: vec![attr("mapstr2", r#""fa", name="n",  name=true"#, 1)],
    };
    assert_eq!(generate(vec![other_attr]).len(), 0);
    let example = vec![
        plain(
            "V1",
            &[
                r#""variant_1", name = "vname""#,
                r#""V1", name = "short", default_to="unknown", default_from=Unknown"#,
                r#""Variant 1", name = "pretty_vname""#,
                r#""VARIANT_1", name = "caps", no_to"#,
            ],
        ),
        plain(
            "V2",
            &[r#""variant_2""#, r#""V2""#, r#""Variant 2""#, r#""VARIANT_1", name = "caps2", no_from"#],
        ),
        plain(
            "V3",
            &[r#""Variant 3", name = "pretty_vname""#, r#""V3""#, r#""variant_3", name = "vname""#],
        ),
        plain("Unknown", &[r#""unknown", name = "vname", default"#]),
        plain("Error", &[r#""err", name = "error""#]),
    ];
    let fns = generate(example);
    assert!(has(&fns, "try_from_caps"));
    assert!(!has(&fns, "try_to_caps"));
    assert!(has(&fns, "try_to_caps2"));
    assert!(!has(&fns, "try_from_caps2"));
}

#[test]
fn simple() {
    let fns = generate(vec![
        plain("V1", &[r#""variant_1", name = "vname""#]),
        plain("V2", &[r#""variant_2""#]),
        plain("Unknown", &[r#""unknown", name = "vname", default"#]),
    ]);

    assert_eq!(call(&fns, "to_vname", "V1"), some("variant_1"));
    assert_eq!(call(&fns, "to_vname", "V2"), some("variant_2"));
    assert_eq!(call(&fns, "to_vname", "Unknown"), some("unknown"));

    assert_eq!(call(&fns, "from_vname", "variant_1"), some("V1"));
    assert_eq!(call(&fns, "from_vname", "variant_2"), some("V2"));
    assert_eq!(call(&fns, "from_vname", "unknown"), some("Unknown"));
    assert_eq!(call(&fns, "from_vname", "err"), some("Unknown"));
    assert_eq!(call(&fns, "from_vname", "random"), some("Unknown"));
}

#[test]
fn basic() {
    let fns = generate(vec![
        plain(
            "V1",
            &[
                r#""variant_1", name = "vname""#,
                r#""V1", name = "short", default_to="u", default_from=Unknown, r#try"#,
                r#""Variant 1", name = "pretty_vname""#,
            ],
        ),
        plain("V2", &[r#""variant_2""#, r#""V2""#, r#""VARIANT_2", name = "caps""#]),
        plain(
            "V3",
            &[
                r#""Variant 3", name = "pretty_vname""#,
                r#""V3", default"#,
                r#""variant_3", name = "vname""#,
                r#""VARIANT_3""#,
            ],
        ),
        plain("Unknown", &[r#""unknown", name = "vname", default"#]),
        plain("Error", &[r#""err", name = "error""#, r#""ERR", name = "caps""#]),
    ]);

    assert_eq!(call(&fns, "to_vname", "V1"), some("variant_1"));
    assert_eq!(call(&fns, "to_vname", "V2"), some("variant_2"));
    assert_eq!(call(&fns, "to_vname", "V3"), some("variant_3"));
    assert_eq!(call(&fns, "to_vname", "Unknown"), some("unknown"));
    assert_eq!(call(&fns, "to_vname", "Error"), some("unknown"));

    // V3 marks itself the default of `short`, which already has its
    // defaults: a default directive adds no rule, so V3 takes the fallback.
    assert_eq!(call(&fns, "to_short", "V1"), some("V1"));
    assert_eq!(call(&fns, "to_short", "V2"), some("V2"));
    assert_eq!(call(&fns, "to_short", "V3"), some("u"));
    assert_eq!(call(&fns, "to_short", "Unknown"), some("u"));
    assert_eq!(call(&fns, "to_short", "Error"), some("u"));

    assert_eq!(call(&fns, "try_to_short", "V1"), some("V1"));
    assert_eq!(call(&fns, "try_to_short", "V2"), some("V2"));
    assert_eq!(call(&fns, "try_to_short", "V3"), None);
    assert_eq!(call(&fns, "try_to_short", "Unknown"), None);
    assert_eq!(call(&fns, "try_to_short", "Error"), None);

    assert_eq!(call(&fns, "try_to_pretty_vname", "V1"), some("Variant 1"));
    assert_eq!(call(&fns, "try_to_pretty_vname", "V2"), None);
    assert_eq!(call(&fns, "try_to_pretty_vname", "V3"), some("Variant 3"));
    assert_eq!(call(&fns, "try_to_pretty_vname", "Unknown"), None);
    assert_eq!(call(&fns, "try_to_pretty_vname", "Error"), None);

    assert_eq!(call(&fns, "try_to_caps", "V1"), None);
    assert_eq!(call(&fns, "try_to_caps", "V2"), some("VARIANT_2"));
    assert_eq!(call(&fns, "try_to_caps", "V3"), some("VARIANT_3"));
    assert_eq!(call(&fns, "try_to_caps", "Unknown"), None);
    assert_eq!(call(&fns, "try_to_caps", "Error"), some("ERR"));

    assert_eq!(call(&fns, "try_to_error", "V3"), None);
    assert_eq!(call(&fns, "try_to_error", "Error"), some("err"));

    assert_eq!(call(&fns, "from_vname", "variant_1"), some("V1"));
    assert_eq!(call(&fns, "from_vname", "variant_2"), some("V2"));
    assert_eq!(call(&fns, "from_vname", "variant_3"), some("V3"));
    assert_eq!(call(&fns, "from_vname", "unknown"), some("Unknown"));
    assert_eq!(call(&fns, "from_vname", "err"), some("Unknown"));
    assert_eq!(call(&fns, "from_vname", "random"), some("Unknown"));

    assert_eq!(call(&fns, "from_short", "V1"), some("V1"));
    assert_eq!(call(&fns, "from_short", "V2"), some("V2"));
    assert_eq!(call(&fns, "from_short", "V3"), some("Unknown"));
    assert_eq!(call(&fns, "from_short", "unknown"), some("Unknown"));
    assert_eq!(call(&fns, "from_short", "err"), some("Unknown"));
    assert_eq!(call(&fns, "from_short", "random"), some("Unknown"));

    assert_eq!(call(&fns, "try_from_short", "V1"), some("V1"));
    assert_eq!(call(&fns, "try_from_short", "V2"), some("V2"));
    assert_eq!(call(&fns, "try_from_short", "V3"), None);
    assert_eq!(call(&fns, "try_from_short", "unknown"), None);
    assert_eq!(call(&fns, "try_from_short", "err"), None);
    assert_eq!(call(&fns, "try_from_short", "random"), None);

    assert_eq!(call(&fns, "try_from_pretty_vname", "Variant 1"), some("V1"));
    assert_eq!(call(&fns, "try_from_pretty_vname", "Variant 2"), None);
    assert_eq!(call(&fns, "try_from_pretty_vname", "Variant 3"), some("V3"));
    assert_eq!(call(&fns, "try_from_pretty_vname", "unknown"), None);
    assert_eq!(call(&fns, "try_from_pretty_vname", "err"), None);
    assert_eq!(call(&fns, "try_from_pretty_vname", "random"), None);

    assert_eq!(call(&fns, "try_from_caps", "VARIANT_1"), None);
    assert_eq!(call(&fns, "try_from_caps", "VARIANT_2"), some("V2"));
    assert_eq!(call(&fns, "try_from_caps", "VARIANT_3"), some("V3"));
    assert_eq!(call(&fns, "try_from_caps", "unknown"), None);
    assert_eq!(call(&fns, "try_from_caps", "ERR"), some("Error"));
    assert_eq!(call(&fns, "try_from_caps", "random"), None);

    assert_eq!(call(&fns, "try_from_error", "Variant 3"), None);
    assert_eq!(call(&fns, "try_from_error", "err"), some("Error"));
}

#[test]
fn multi_default() {
    let fns = generate(vec![
        plain(
            "V1",
            &[
                r#""variant_1", name = "dv2", default_to = "error", default_from = Error"#,
                r#""variant_1", name = "dv2_t", default_to = "error2""#,
                r#""variant_1", name = "dv2_f",  default_from = Error"#,
            ],
        ),
        plain(
            "V2",
            &[
                r#""variant_2""#,
                r#""variant_2", default_to = "error3""#,
                r#""variant_2", default_from=Unknown"#,
            ],
        ),
        plain(
            "Unknown",
            &[
                r#""unknown", name = "dv2", default"#,
                r#""unknown", name = "dv2_t", default"#,
                r#""unknown", name = "dv2_f", default"#,
            ],
        ),
        plain("Error", &[]),
    ]);

    // Defaults already given on V1 win over those that Unknown implies, and
    // Unknown, marked default, adds no rule of its own.
    assert_eq!(call(&fns, "to_dv2", "V1"), some("variant_1"));
    assert_eq!(call(&fns, "to_dv2", "V2"), some("variant_2"));
    assert_eq!(call(&fns, "to_dv2", "Unknown"), some("error"));
    assert_eq!(call(&fns, "to_dv2", "Error"), some("error"));

    assert_eq!(call(&fns, "from_dv2", "variant_1"), some("V1"));
    assert_eq!(call(&fns, "from_dv2", "variant_2"), some("V2"));
    assert_eq!(call(&fns, "from_dv2", "unknown"), some("Error"));
    assert_eq!(call(&fns, "from_dv2", "err"), some("Error"));
    assert_eq!(call(&fns, "from_dv2", "random"), some("Error"));

    assert_eq!(call(&fns, "to_dv2_t", "V1"), some("variant_1"));
    assert_eq!(call(&fns, "to_dv2_t", "V2"), some("variant_2"));
    assert_eq!(call(&fns, "to_dv2_t", "Unknown"), some("error2"));
    assert_eq!(call(&fns, "to_dv2_t", "Error"), some("error2"));

    assert_eq!(call(&fns, "from_dv2_t", "variant_1"), some("V1"));
    assert_eq!(call(&fns, "from_dv2_t", "variant_2"), some("V2"));
    assert_eq!(call(&fns, "from_dv2_t", "unknown"), some("Unknown"));
    assert_eq!(call(&fns, "from_dv2_t", "err"), some("Unknown"));
    assert_eq!(call(&fns, "from_dv2_t", "random"), some("Unknown"));

    assert_eq!(call(&fns, "to_dv2_f", "V1"), some("variant_1"));
    assert_eq!(call(&fns, "to_dv2_f", "V2"), some("variant_2"));
    assert_eq!(call(&fns, "to_dv2_f", "Unknown"), some("unknown"));
    assert_eq!(call(&fns, "to_dv2_f", "Error"), some("unknown"));

    assert_eq!(call(&fns, "from_dv2_f", "variant_1"), some("V1"));
    assert_eq!(call(&fns, "from_dv2_f", "variant_2"), some("V2"));
    assert_eq!(call(&fns, "from_dv2_f", "unknown"), some("Error"));
    assert_eq!(call(&fns, "from_dv2_f", "err"), some("Error"));
    assert_eq!(call(&fns, "from_dv2_f", "random"), some("Error"));
}

#[test]
fn display_default() {
    let fns = generate(vec![
        plain("V1", &[r#""variant_1", name = "vname", display"#]),
        plain("V2", &[r#""variant_2""#]),
        plain("Unknown", &[r#""unknown", name = "vname", default"#]),
        plain("Err", &[]),
    ]);

    assert_eq!(call(&fns, "to_vname", "V1"), some("variant_1"));
    assert_eq!(call(&fns, "to_vname", "V2"), some("variant_2"));
    assert_eq!(call(&fns, "to_vname", "Unknown"), some("unknown"));
    assert_eq!(call(&fns, "to_vname", "Err"), some("unknown"));

    assert_eq!(call(&fns, "from_vname", "variant_1"), some("V1"));
    assert_eq!(call(&fns, "from_vname", "variant_2"), some("V2"));
    assert_eq!(call(&fns, "from_vname", "unknown"), some("Unknown"));
    assert_eq!(call(&fns, "from_vname", "err"), some("Unknown"));
    assert_eq!(call(&fns, "from_vname", "random"), some("Unknown"));

    assert_eq!(call(&fns, "fmt", "V1"), some("variant_1"));
    assert_eq!(call(&fns, "fmt", "V2"), some("variant_2"));
    assert_eq!(call(&fns, "fmt", "Unknown"), some("unknown"));
    assert_eq!(call(&fns, "fmt", "Err"), some("unknown"));
}

#[test]
fn display_no_default() {
    let fns = generate(vec![
        plain("V1", &[r#""variant_1", name = "vname", display"#]),
        plain("V2", &[r#""variant_2""#]),
        plain("Unknown", &[r#""unknown", name = "vname""#]),
        plain("Err", &[]),
    ]);

    assert_eq!(call(&fns, "try_to_vname", "V1"), some("variant_1"));
    assert_eq!(call(&fns, "try_to_vname", "V2"), some("variant_2"));
    assert_eq!(call(&fns, "try_to_vname", "Unknown"), some("unknown"));
    assert_eq!(call(&fns, "try_to_vname", "Err"), None);

    assert_eq!(call(&fns, "try_from_vname", "variant_1"), some("V1"));
    assert_eq!(call(&fns, "try_from_vname", "variant_2"), some("V2"));
    assert_eq!(call(&fns, "try_from_vname", "unknown"), some("Unknown"));
    assert_eq!(call(&fns, "try_from_vname", "err"), None);
    assert_eq!(call(&fns, "try_from_vname", "random"), None);

    assert_eq!(call(&fns, "fmt", "V1"), some("variant_1"));
    assert_eq!(call(&fns, "fmt", "V2"), some("variant_2"));
    assert_eq!(call(&fns, "fmt", "Unknown"), some("unknown"));
    assert_eq!(call(&fns, "fmt", "Err"), some("Unknown variant"));
}


fn errors_of(vs: Vec<Variant>) -> Vec<Diagnostic> {
    match enum_map(&vs) {
        Ok(_) => panic!("expected errors"),
        Err(e) => e,
    }
}

fn names(fns: &[GeneratedFn]) -> Vec<String> {
    fns.iter().map(|f| f.fn_name()).collect()
}

#[test]
fn no_annotations_generate_nothing() {
    let bare = plain("A", &[]);
    let documented = Variant {
        ident: String::from("B"),
        has_fields: true,
        attrs: vec![attr("doc", r#""text""#, 1), attr("other", "x", 2)],
    };
    let vs = vec![bare, documented];
    assert_eq!(Mappings::parse(&vs).map(|s| s.len()).ok(), Some(0));
    assert_eq!(generate(vs).len(), 0);
    assert_eq!(generate(vec![]).len(), 0);
}

#[test]
fn fallible_only_without_defaults() {
    let fns = generate(vec![plain("A", &[r#""a", name = "n""#]), plain("B", &[r#""b""#])]);
    assert_eq!(names(&fns), vec!["try_to_n", "try_from_n"]);
    assert_eq!(call(&fns, "try_to_n", "C"), None);
    assert_eq!(call(&fns, "try_from_n", "c"), None);
}

#[test]
fn strict_with_defaults() {
    let fns = generate(vec![
        plain("A", &[r#""a", name = "n""#]),
        plain("B", &[r#""b", default"#]),
    ]);
    assert_eq!(names(&fns), vec!["to_n", "from_n"]);
    assert_eq!(call(&fns, "to_n", "C"), some("b"));
    assert_eq!(call(&fns, "from_n", "c"), some("B"));
}

#[test]
fn only_one_default_given() {
    let fns = generate(vec![plain("A", &[r#""a", name = "n", default_to = "z""#])]);
    assert_eq!(names(&fns), vec!["to_n", "try_from_n"]);
    let fns = generate(vec![plain("A", &[r#""a", name = "n", default_from = A"#])]);
    assert_eq!(names(&fns), vec!["try_to_n", "from_n"]);
}

#[test]
fn first_default_wins() {
    let vs = vec![
        plain("A", &[r#""a", name = "n", default_to = "first", default_from = A"#]),
        plain("B", &[r#""b", default_to = "second", default_from = B"#]),
        plain("C", &[]),
    ];
    let sets = Mappings::parse(&vs).ok().unwrap();
    assert_eq!(sets[0].default_to.as_deref(), Some("first"));
    assert_eq!(sets[0].default_from.as_deref(), Some("A"));
    let fns = generate(vs);
    assert_eq!(call(&fns, "to_n", "C"), some("first"));
    assert_eq!(call(&fns, "from_n", "c"), some("A"));
}

#[test]
fn no_to_sticks() {
    let fns = generate(vec![
        plain("A", &[r#""a", name = "n""#]),
        plain("B", &[r#""b", no_to"#]),
        plain("C", &[r#""c""#]),
    ]);
    assert_eq!(names(&fns), vec!["try_from_n"]);
    let fns = generate(vec![
        plain("A", &[r#""a", name = "n", no_from, default"#]),
        plain("B", &[r#""b""#]),
    ]);
    assert_eq!(names(&fns), vec!["to_n"]);
}

#[test]
fn try_sticks() {
    let fns = generate(vec![
        plain("A", &[r#""a", name = "n", default_to = "x", default_from = A"#]),
        plain("B", &[r#""b", try"#]),
        plain("C", &[r#""c""#]),
    ]);
    assert_eq!(names(&fns), vec!["to_n", "try_to_n", "from_n", "try_from_n"]);
    assert_eq!(call(&fns, "try_to_n", "C"), some("c"));
    assert_eq!(call(&fns, "try_to_n", "D"), None);
    assert_eq!(call(&fns, "to_n", "D"), some("x"));
}

#[test]
fn second_display_claim_is_error() {
    let errors = errors_of(vec![
        plain("A", &[r#""a", name = "n", display"#, r#""a", name = "m", display"#]),
    ]);
    assert_eq!(errors.len(), 1);
    assert!(matches!(errors[0].kind, ErrorKind::TraitAlreadyImplemented));
    assert_eq!(errors[0].span, 2018);
    assert_eq!(errors[0].message(), "trait `Display` is already implemented");

    let fns = generate(vec![
        plain("A", &[r#""a", name = "n", display"#]),
        plain("B", &[r#""b", display"#]),
    ]);
    assert_eq!(names(&fns), vec!["try_to_n", "try_from_n", "fmt"]);
}

#[test]
fn field_variant_not_reverse_target() {
    let fns = generate(vec![
        plain("A", &[r#""a", name = "n""#]),
        variant("B", true, &[r#""b""#]),
    ]);
    assert_eq!(call(&fns, "try_to_n", "B"), some("b"));
    assert_eq!(call(&fns, "try_from_n", "b"), None);
    assert_eq!(call(&fns, "try_from_n", "a"), some("A"));
    let reverse = fns.iter().find(|f| f.kind == FnKind::TryFrom).unwrap();
    assert_eq!(reverse.arms.len(), 1);
}

#[test]
fn default_variant_scenario() {
    let vs = vec![
        plain("V1", &[r#""v1", name="n""#]),
        plain("V2", &[r#""v2""#]),
        plain("U", &[r#""u", name="n", default"#]),
    ];
    let sets = Mappings::parse(&vs).ok().unwrap();
    assert_eq!(sets.len(), 1);
    assert_eq!(sets[0].name, "n");
    let rules: Vec<(&str, &str)> =
        sets[0].rules.iter().map(|r| (r.variant.as_str(), r.value.as_str())).collect();
    assert_eq!(rules, vec![("V1", "v1"), ("V2", "v2")]);
    assert_eq!(sets[0].default_to.as_deref(), Some("u"));
    assert_eq!(sets[0].default_from.as_deref(), Some("U"));

    let fns = generate(vs);
    assert_eq!(names(&fns), vec!["to_n", "from_n"]);
    assert_eq!(call(&fns, "to_n", "V1"), some("v1"));
    assert_eq!(call(&fns, "to_n", "V2"), some("v2"));
    assert_eq!(call(&fns, "to_n", "U"), some("u"));
    assert_eq!(call(&fns, "from_n", "v1"), some("V1"));
    assert_eq!(call(&fns, "from_n", "v2"), some("V2"));
    assert_eq!(call(&fns, "from_n", "anything"), some("U"));
}

#[test]
fn named_set_on_later_variant() {
    let fns = generate(vec![
        plain("A", &[r#""a", name = "n""#]),
        plain("B", &[r#""b""#, r#""bx", name = "x""#]),
    ]);
    assert_eq!(call(&fns, "try_to_x", "B"), some("bx"));
    assert_eq!(call(&fns, "try_to_x", "A"), None);

    let errors = errors_of(vec![
        plain("A", &[r#""a", name = "n0""#, r#""a", name = "n1""#]),
        plain("B", &[r#""b""#, r#""b""#, r#""b""#]),
    ]);
    assert_eq!(errors.len(), 1);
    assert!(matches!(errors[0].kind, ErrorKind::ArgNotSet(Param::Name)));
    assert_eq!(errors[0].span, 3000);
    assert_eq!(errors[0].message(), "argument `name` is not set");
}

#[test]
fn round_trip() {
    let fns = generate(vec![
        plain("A", &[r#""a", name = "n", default_to = "z", default_from = C, try"#]),
        plain("B", &[r#""b""#]),
        plain("C", &[]),
    ]);
    for (v, s) in [("A", "a"), ("B", "b")] {
        for name in ["to_n", "try_to_n"] {
            assert_eq!(call(&fns, name, v), some(s));
        }
        for name in ["from_n", "try_from_n"] {
            assert_eq!(call(&fns, name, s), some(v));
        }
    }
}

#[test]
fn first_matching_arm_wins() {
    let fns = generate(vec![
        plain("A", &[r#""same", name = "n""#]),
        plain("B", &[r#""same""#]),
    ]);
    assert_eq!(call(&fns, "try_from_n", "same"), some("A"));
    assert_eq!(call(&fns, "try_to_n", "B"), some("same"));
}

#[test]
fn argument_errors() {
    let cases: Vec<(&str, ErrorKind, usize, &str)> = vec![
        ("", ErrorKind::ArgNotSet(Param::Value), 1000, "argument `value` is not set"),
        (r#"name = "n""#, ErrorKind::ArgNotSet(Param::Value), 1001, "argument `value` is not set"),
        (r#""a", name = "n", name = "m""#, ErrorKind::ArgSetTwice(Param::Name), 1018, "argument `name` is set twice"),
        (r#""a", name = "n", try, try"#, ErrorKind::ArgSetTwice(Param::Try), 1023, "argument `try` is set twice"),
        (r#""a", name = "n", fas"#, ErrorKind::UnknownArgument, 1018, "unknown parameter"),
        (r#""a", name = "n", "b""#, ErrorKind::UnknownArgument, 1018, "unknown parameter"),
        (r#""a" "b""#, ErrorKind::Expected(Expected::Comma), 1005, "expected `,`"),
        (r#""a", name "n""#, ErrorKind::Expected(Expected::Eq), 1011, "expected `=`"),
        (r#""a", name = true"#, ErrorKind::Expected(Expected::StrLit), 1013, "expected string literal"),
        (r#""a", name = "#, ErrorKind::Expected(Expected::StrLit), 1000, "expected string literal"),
        (r#""a", default_from = "f""#, ErrorKind::Expected(Expected::Ident), 1021, "expected identifier"),
        (r#""a", name = "n" try"#, ErrorKind::Expected(Expected::Comma), 1017, "expected `,`"),
    ];
    for (args, kind, span, message) in cases {
        let errors = errors_of(vec![plain("A", &[args])]);
        assert_eq!(errors.len(), 1, "{args}");
        assert_eq!(format!("{:?}", errors[0].kind), format!("{:?}", kind), "{args}");
        assert_eq!(errors[0].span, span, "{args}");
        assert_eq!(errors[0].message(), message);
    }
}

#[test]
fn trailing_comma_accepted() {
    let fns = generate(vec![plain("A", &[r#""a", name = "n", "#])]);
    assert_eq!(names(&fns), vec!["try_to_n", "try_from_n"]);
    let fns = generate(vec![plain("A", &[r#""a", name = "m", "#]), plain("B", &[r#""b","#])]);
    assert_eq!(names(&fns), vec!["try_to_m", "try_from_m"]);
    assert_eq!(call(&fns, "try_to_m", "B"), some("b"));
}

#[test]
fn duplicate_mapping_on_one_variant() {
    let errors = errors_of(vec![plain("A", &[r#""a", name = "n""#, r#""b", name = "n""#])]);
    assert_eq!(errors.len(), 1);
    assert!(matches!(&errors[0].kind, ErrorKind::DuplicateMapping(n) if n == "n"));
    assert_eq!(errors[0].span, 2006);
    assert_eq!(errors[0].message(), "maping with name=`n` set twice");
}

#[test]
fn all_errors_collected() {
    let errors = errors_of(vec![
        plain("A", &[r#""a""#, r#""b", name = "n", name = "m""#]),
        plain("B", &[r#""c", name = "n""#, r#""d", bogus"#]),
    ]);
    let kinds: Vec<String> = errors.iter().map(|e| e.message()).collect();
    assert_eq!(
        kinds,
        vec![
            "argument `name` is not set",
            "argument `name` is set twice",
            "unknown parameter",
        ]
    );
    assert_eq!(errors[0].span, 1000);
}

#[test]
fn directive_parse_and_finalize() {
    let toks = lex(r#""v", name = "n", default, no_to, display"#, 0);
    let d = Directive::parse(&toks, 99).ok().unwrap();
    assert_eq!(d.value, "v");
    assert_eq!(d.name.as_deref(), Some("n"));
    assert!(d.is_default && !d.create_to && d.create_from && !d.create_try);
    assert_eq!(d.display, Some(toks[toks.len() - 1].span));
    assert_eq!(d.default_to, None);
    let f = d.finalize(&String::from("V"));
    assert_eq!(f.default_to.as_deref(), Some("v"));
    assert_eq!(f.default_from.as_deref(), Some("V"));

    let toks = lex(r#""v", default_to = "t", default"#, 0);
    let f = Directive::parse(&toks, 0).ok().unwrap().finalize(&String::from("V"));
    assert_eq!(f.default_to.as_deref(), Some("t"));
    assert_eq!(f.default_from.as_deref(), Some("V"));
}

#[test]
fn named_then_positional_same_set() {
    let errors = errors_of(vec![
        plain("V1", &[r#""a1", name = "a""#, r#""b1", name = "b""#]),
        plain("V2", &[r#""x", name = "b""#, r#""y""#]),
    ]);
    assert_eq!(errors.len(), 1);
    assert!(matches!(&errors[0].kind, ErrorKind::DuplicateMapping(n) if n == "b"));
    assert_eq!(errors[0].span, 2000);
    assert_eq!(errors[0].message(), "maping with name=`b` set twice");
}

#[test]
fn positional_then_named_same_set() {
    let errors = errors_of(vec![
        plain("V1", &[r#""a1", name = "a""#, r#""b1", name = "b""#]),
        plain("V2", &[r#""x""#, r#""y", name = "a""#]),
    ]);
    assert_eq!(errors.len(), 1);
    assert!(matches!(&errors[0].kind, ErrorKind::DuplicateMapping(n) if n == "a"));
    assert_eq!(errors[0].span, 2006);
}
