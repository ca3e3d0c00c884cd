use sigma::suggest::did_you_mean;
use sigma::{DiagnosticKind, Sigma};

type Transformer = fn(String) -> String;

fn engine(input: &str) -> Sigma<Transformer> {
    Sigma::new(input)
}

fn strings(items: &[&str]) -> Vec<String> {
    items.iter().map(|s| s.to_string()).collect()
}

#[test]
#[should_panic]
fn missing_data_type() {
    let input = "{{ username: }}";
    let _ = engine(input)
        .bind("username", "test")
        .parse()
        .unwrap()
        .compile();
}

#[test]
#[should_panic]
fn unknown_data_type() {
    let input = "{{ username: unknown }}";
    let output = engine(input)
        .bind("username", "test")
        .parse()
        .unwrap()
        .compile();
    println!("{:?}", output);
}

#[test]
fn possible_values_match() {
    let p_vals = strings(&["test", "possible", "values"]);
    assert_eq!(did_you_mean("tst", &p_vals), Some("test".to_string()));
}

#[test]
fn literal_text_is_unchanged() {
    for t in ["", "plain text", "a { b } c", "}} stray close", "single { brace", "ünïcödé ✓"] {
        let out = engine(t).parse().unwrap().compile().unwrap();
        assert_eq!(out, t);
    }
}

#[test]
fn bound_typed_variable_round_trip() {
    let out = engine("{{ x: u32 }}").bind("x", "42").parse().unwrap().compile().unwrap();
    assert_eq!(out, "42");
}

#[test]
fn pipeline_uppercase() {
    let out = engine("{{ x: str | UPPERCASE }}")
        .bind("x", "abc")
        .parse()
        .unwrap()
        .compile()
        .unwrap();
    assert_eq!(out, "ABC");
}

#[test]
fn nullable_unbound_is_empty() {
    let out = engine("Hello {{ name? }}").parse().unwrap().compile().unwrap();
    assert_eq!(out, "Hello ");
}

#[test]
fn unbound_variable_fails_at_parse() {
    let err = engine("{{ name }}").parse().unwrap_err();
    assert_eq!(err.kind, DiagnosticKind::UnboundVariable);
    assert_eq!(err.message, "undefined variable: `name` consider adding a bind for it");
    assert_eq!((err.span.start, err.span.end), (3, 7));
}

#[test]
fn type_mismatch_fails_at_compile() {
    let err = engine("{{ n: u32 }}").bind("n", "abc").parse().unwrap().compile().unwrap_err();
    assert_eq!(err.kind, DiagnosticKind::TypeMismatch);
    assert_eq!(err.message, "cannot parse input `abc` into `U32` for var `n` !");
    assert_eq!((err.span.start, err.span.end), (6, 9));
}

#[test]
fn unknown_type_suggests_nearest() {
    let err = engine("{{ n: u32x }}").bind("n", "1").parse().unwrap_err();
    assert_eq!(err.kind, DiagnosticKind::UnknownType);
    assert_eq!(err.message, "unknown Data type: `u32x` did you mean: `u32` ?");
    assert_eq!((err.span.start, err.span.end), (6, 10));
}

#[test]
fn identical_placeholders_all_replaced() {
    let out = engine("{{x}} and {{x}}").bind("x", "Z").parse().unwrap().compile().unwrap();
    assert_eq!(out, "Z and Z");
}

fn shout(s: String) -> String {
    format!("{}!", s)
}

fn twice(s: String) -> String {
    format!("{}{}", s, s)
}

fn trim(s: String) -> String {
    s.trim().to_string()
}

#[test]
fn pipeline_runs_left_to_right() {
    let a = engine("{{ x: str | SHOUT | TWICE }}")
        .register_fn("SHOUT", shout)
        .register_fn("TWICE", twice)
        .bind("x", "ab")
        .parse()
        .unwrap()
        .compile()
        .unwrap();
    assert_eq!(a, "ab!ab!");
    let b = engine("{{ x: str | TWICE | SHOUT }}")
        .register_fn("SHOUT", shout)
        .register_fn("TWICE", twice)
        .bind("x", "ab")
        .parse()
        .unwrap()
        .compile()
        .unwrap();
    assert_eq!(b, "abab!");
}

#[test]
fn both_pipe_spellings_are_accepted() {
    let out = engine("Hello {{ name: str |> TRIM | UPPERCASE }} !")
        .register_fn("TRIM", trim)
        .bind("name", "  someone ")
        .parse()
        .unwrap()
        .compile()
        .unwrap();
    assert_eq!(out, "Hello SOMEONE !");
}

#[test]
fn lowercase_is_built_in() {
    let out = engine("{{ x: str | LOWERCASE }}")
        .bind("x", "MiXeD")
        .parse()
        .unwrap()
        .compile()
        .unwrap();
    assert_eq!(out, "mixed");
}

#[test]
fn registered_function_replaces_built_in() {
    let out = engine("{{ x: str | UPPERCASE }}")
        .register_fn("UPPERCASE", shout)
        .bind("x", "abc")
        .parse()
        .unwrap()
        .compile()
        .unwrap();
    assert_eq!(out, "abc!");
}

#[test]
fn type_is_checked_after_the_pipeline() {
    fn digits(_: String) -> String {
        "7".to_string()
    }
    let out = engine("{{ n: u8 | DIGITS }}")
        .register_fn("DIGITS", digits)
        .bind("n", "not a number")
        .parse()
        .unwrap()
        .compile()
        .unwrap();
    assert_eq!(out, "7");
    let err = engine("{{ n: u8 | SHOUT }}")
        .register_fn("SHOUT", shout)
        .bind("n", "7")
        .parse()
        .unwrap()
        .compile()
        .unwrap_err();
    assert_eq!(err.kind, DiagnosticKind::TypeMismatch);
    assert_eq!(err.message, "cannot parse input `7!` into `U8` for var `n` !");
}

#[test]
fn long_value_is_shortened_in_the_message() {
    let err = engine("{{ n: bool }}")
        .bind("n", "0123456789abcdefXYZ")
        .parse()
        .unwrap()
        .compile()
        .unwrap_err();
    assert_eq!(
        err.message,
        "cannot parse input `0123456789abcde...` into `Bool` for var `n` !"
    );
    let err = engine("{{ n: bool }}")
        .bind("n", "0123456789abcde")
        .parse()
        .unwrap()
        .compile()
        .unwrap_err();
    assert_eq!(err.message, "cannot parse input `0123456789abcde` into `Bool` for var `n` !");
}

#[test]
fn missing_type_is_a_grammar_fault_at_the_name() {
    let err = engine("{{ username: }}").bind("username", "test").parse().unwrap_err();
    assert_eq!(err.kind, DiagnosticKind::Grammar);
    assert_eq!(err.message, "expected data type");
    assert_eq!((err.span.start, err.span.end), (3, 11));
}

#[test]
fn pipeline_without_type_is_a_grammar_fault() {
    let err = engine("{{ x | UPPERCASE }}").bind("x", "a").parse().unwrap_err();
    assert_eq!(err.kind, DiagnosticKind::Grammar);
    assert_eq!((err.span.start, err.span.end), (3, 4));
}

#[test]
fn unknown_function_suggests_nearest() {
    let err = engine("my username is {{ username: u32 | UPPERCAS }} WOW!")
        .bind("username", "x")
        .parse()
        .unwrap_err();
    assert_eq!(err.kind, DiagnosticKind::UnknownFunction);
    assert_eq!(err.message, "undefined function: UPPERCAS did you mean: `UPPERCASE` ?");
    assert_eq!((err.span.start, err.span.end), (34, 42));
    assert_eq!(err.position("my username is {{ username: u32 | UPPERCAS }} WOW!"), Some((1, 35)));
    let err = engine("{{ a: str | NO_FUN }}").bind("a", "x").parse().unwrap_err();
    assert_eq!(err.message, "undefined function: NO_FUN ");
}

#[test]
fn unbound_variable_suggests_nearest_binding() {
    let err = engine("{{ usernam }}").bind("username", "x").parse().unwrap_err();
    assert_eq!(err.kind, DiagnosticKind::UnboundVariable);
    assert_eq!(err.message, "undefined variable: `usernam` did you mean: `username` ?");
}

#[test]
fn unknown_type_without_suggestion() {
    let err = engine("{{ username: unknown }}").bind("username", "test").parse().unwrap_err();
    assert_eq!(err.kind, DiagnosticKind::UnknownType);
    assert_eq!(err.message, "unknown Data type: `unknown` ");
}

#[test]
fn grammar_fault_comes_before_every_other() {
    let err = engine("{{ a: nope }} {{ }}").parse().unwrap_err();
    assert_eq!(err.kind, DiagnosticKind::Grammar);
    assert_eq!(err.message, "expected variable name");
    assert_eq!((err.span.start, err.span.end), (17, 18));
}

#[test]
fn first_fault_of_resolution_wins() {
    let err = engine("{{ a: nope }} {{ b }}").parse().unwrap_err();
    assert_eq!(err.kind, DiagnosticKind::UnknownType);
    let err = engine("{{ b }} {{ a: nope }}").parse().unwrap_err();
    assert_eq!(err.kind, DiagnosticKind::UnboundVariable);
}

#[test]
fn last_binding_wins() {
    let out = engine("{{ x }}").bind("x", "1").bind("x", "2").parse().unwrap().compile().unwrap();
    assert_eq!(out, "2");
}

#[test]
fn bind_map_merges_and_overwrites() {
    let pairs = vec![
        ("b".to_string(), "B1".to_string()),
        ("c".to_string(), "C".to_string()),
        ("b".to_string(), "B2".to_string()),
    ];
    let out = engine("{{a}}-{{b}}-{{c}}")
        .bind("a", "A")
        .bind("b", "old")
        .bind_map(pairs)
        .parse()
        .unwrap()
        .compile()
        .unwrap();
    assert_eq!(out, "A-B2-C");
}

#[test]
fn override_bind_drops_earlier_bindings() {
    let pairs = vec![("b".to_string(), "B".to_string())];
    let err = engine("{{a}}-{{b}}").bind("a", "A").override_bind(pairs.clone()).parse().unwrap_err();
    assert_eq!(err.kind, DiagnosticKind::UnboundVariable);
    let out = engine("{{a?}}-{{b}}")
        .bind("a", "A")
        .override_bind(pairs)
        .parse()
        .unwrap()
        .compile()
        .unwrap();
    assert_eq!(out, "-B");
}

#[test]
fn lookup_is_exact() {
    let err = engine("{{ Name }}").bind("name", "x").parse().unwrap_err();
    assert_eq!(err.kind, DiagnosticKind::UnboundVariable);
    let err = engine("{{ x: str | uppercase }}").bind("x", "x").parse().unwrap_err();
    assert_eq!(err.kind, DiagnosticKind::UnknownFunction);
    let err = engine("{{ x: U32 }}").bind("x", "1").parse().unwrap_err();
    assert_eq!(err.kind, DiagnosticKind::UnknownType);
}

#[test]
fn every_placeholder_of_a_name_is_replaced() {
    let out = engine("{{x}} and {{ x }}").bind("x", "Z").parse().unwrap().compile().unwrap();
    assert_eq!(out, "Z and Z");
    let out = engine("{{ x }}{{x}}{{\tx\n}}").bind("x", "ab").parse().unwrap().compile().unwrap();
    assert_eq!(out, "ababab");
}

#[test]
fn last_declaration_of_a_name_decides_for_all_its_placeholders() {
    let out = engine("{{ x: str }} {{ x: str | UPPERCASE }}")
        .bind("x", "ab")
        .parse()
        .unwrap()
        .compile()
        .unwrap();
    assert_eq!(out, "AB AB");
    let err = engine("{{ x }} {{ x: u8 }}").bind("x", "ab").parse().unwrap().compile().unwrap_err();
    assert_eq!(err.kind, DiagnosticKind::TypeMismatch);
    assert_eq!((err.span.start, err.span.end), (14, 16));
}

#[test]
fn substituted_text_is_not_read_again() {
    let out = engine("{{ x }} {{ y }}")
        .bind("x", "{{ y }}")
        .bind("y", "B")
        .parse()
        .unwrap()
        .compile()
        .unwrap();
    assert_eq!(out, "{{ y }} B");
    let out = engine("{{ y }} {{ x }}")
        .bind("x", "{{ y }}")
        .bind("y", "{{ x }}")
        .parse()
        .unwrap()
        .compile()
        .unwrap();
    assert_eq!(out, "{{ x }} {{ y }}");
    let out = engine("{{ a }}").bind("a", "{{ a }}{{ b }}").parse().unwrap().compile().unwrap();
    assert_eq!(out, "{{ a }}{{ b }}");
}

#[test]
fn agrees_with_literal_replacement_for_one_placeholder_text() {
    let template = "<p>{{ v }}</p><b>{{ v }}</b> {{ v }}";
    let matcher = regex::Regex::new(&regex::escape("{{ v }}")).unwrap();
    for value in ["", "x", "a$1b", "ünï", "}}{{"] {
        let out = engine(template).bind("v", value).parse().unwrap().compile().unwrap();
        assert_eq!(out, matcher.replace_all(template, regex::NoExpand(value)));
    }
}

#[test]
fn text_around_placeholders_is_kept() {
    let out = engine("ä{{ a }}ö{{ b? }}ü{{ a }}")
        .bind("a", "€")
        .parse()
        .unwrap()
        .compile()
        .unwrap();
    assert_eq!(out, "ä€öü€");
}

#[test]
fn values_with_dollar_signs_are_taken_literally() {
    let out = engine("{{ a }}|{{ a }}").bind("a", "$0 $1 ${x}").parse().unwrap().compile().unwrap();
    assert_eq!(out, "$0 $1 ${x}|$0 $1 ${x}");
}

#[test]
fn every_type_accepts_a_literal_of_its_own() {
    let cases = [
        ("u8", "255"),
        ("i8", "-128"),
        ("u16", "65535"),
        ("i16", "-32768"),
        ("u32", "4294967295"),
        ("i32", "-2147483648"),
        ("u64", "18446744073709551615"),
        ("i64", "-9223372036854775808"),
        ("f32", "1.5e3"),
        ("f64", "-.25"),
        ("bool", "true"),
        ("str", "anything at all"),
    ];
    for (ty, value) in cases {
        let template = format!("{{{{ v: {} }}}}", ty);
        let out = engine(&template).bind("v", value).parse().unwrap().compile().unwrap();
        assert_eq!(out, value);
    }
}

#[test]
fn binding_after_parsing_counts() {
    let out = engine("{{ x?: u32 }}").parse().unwrap().bind("x", "42").compile().unwrap();
    assert_eq!(out, "42");
    let err = engine("{{ x?: u32 }}").parse().unwrap().bind("x", "4 2").compile().unwrap_err();
    assert_eq!(err.kind, DiagnosticKind::TypeMismatch);
}

#[test]
fn variable_that_lost_its_binding_is_a_fault() {
    let err = engine("a {{ x }} b")
        .bind("x", "1")
        .bind("y", "2")
        .parse()
        .unwrap()
        .override_bind(vec![("xx".to_string(), "3".to_string())])
        .compile()
        .unwrap_err();
    assert_eq!(err.kind, DiagnosticKind::UnboundVariable);
    assert_eq!(err.message, "undefined variable: `x` did you mean: `xx` ?");
    assert_eq!((err.span.start, err.span.end), (5, 6));
}

#[test]
fn first_fault_is_that_of_the_first_variable() {
    let err = engine("{{ a: u8 }} {{ b: bool }} {{ a: u8 }}")
        .bind("a", "300")
        .bind("b", "maybe")
        .parse()
        .unwrap()
        .compile()
        .unwrap_err();
    assert_eq!(err.message, "cannot parse input `300` into `U8` for var `a` !");
    assert_eq!((err.span.start, err.span.end), (32, 34));
}

#[test]
fn very_long_placeholder_is_replaced() {
    let template = format!("a{{{{{}x?}}}}b", " ".repeat(4_000_000));
    let out = engine(&template).parse().unwrap().compile().unwrap();
    assert_eq!(out, "ab");
}

#[test]
fn text_between_placeholders_is_kept_byte_for_byte() {
    let template = "\u{1F600}{{a}}\u{e9}\n\t{{ b? }}}}{ {\u{4e2d}{{a}}\u{0}";
    let out = engine(template).bind("a", "\u{3b1}").parse().unwrap().compile().unwrap();
    assert_eq!(out, "\u{1F600}\u{3b1}\u{e9}\n\t}}{ {\u{4e2d}\u{3b1}\u{0}");
}
