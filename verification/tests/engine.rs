use figura::{CmpOp, Context, Decimal, FormatError, ParseError, Template, Token, Value, ValueKind,
    tokenize};

fn ctx_of(pairs: &[(&str, Value)]) -> Context {
    let mut ctx = Context::new();
    for (name, value) in pairs {
        ctx.insert(
            name,
            match value {
                Value::Int(i) => Value::Int(*i),
                Value::Float(d) => Value::Float(*d),
                Value::Bool(b) => Value::Bool(*b),
                Value::Text(s) => Value::text(s),
            },
        );
    }
    ctx
}

// ---------------------------------------------------------------------------
// literal-only templates
// ---------------------------------------------------------------------------

#[test]
fn literal_only_unchanged_empty_context() {
    let t = Template::parse_default("Hello, World!").unwrap();
    assert_eq!(t.format(&Context::new()).unwrap(), "Hello, World!");
}

#[test]
fn literal_only_unchanged_any_context() {
    let t = Template::parse_default("This is a static string with no variables at all.").unwrap();
    let ctx = ctx_of(&[("name", Value::text("World")), ("age", Value::Int(30))]);
    assert_eq!(
        t.format(&ctx).unwrap(),
        "This is a static string with no variables at all."
    );
}

#[test]
fn empty_template_formats_empty() {
    let t = Template::parse_default("").unwrap();
    assert_eq!(t.format(&Context::new()).unwrap(), "");
}

// ---------------------------------------------------------------------------
// doubled delimiters
// ---------------------------------------------------------------------------

#[test]
fn doubled_open_is_literal() {
    let t = Template::parse_default("Use {{braces}} for templates").unwrap();
    assert_eq!(t.format(&Context::new()).unwrap(), "Use {braces} for templates");
}

#[test]
fn doubled_close_is_literal() {
    let t = Template::parse_default("a}}b").unwrap();
    assert_eq!(t.format(&Context::new()).unwrap(), "a}b");
}

#[test]
fn doubled_same_char_delimiter() {
    let t = Template::parse("100%%", '%', '%').unwrap();
    assert_eq!(t.format(&Context::new()).unwrap(), "100%");
}

// ---------------------------------------------------------------------------
// repeated calls agree
// ---------------------------------------------------------------------------

#[test]
fn format_is_repeatable() {
    let t = Template::parse_default("Hello, {name}! {{x}} {n:3}").unwrap();
    let ctx = ctx_of(&[("name", Value::text("World")), ("n", Value::text("ab"))]);
    let first = t.format(&ctx).unwrap();
    let second = t.format(&ctx).unwrap();
    assert_eq!(first, second);
    assert_eq!(first, "Hello, World! {x} ababab");
}

// ---------------------------------------------------------------------------
// delimiter pairs are interchangeable
// ---------------------------------------------------------------------------

#[test]
fn delimiter_pairs_give_identical_output() {
    let ctx = ctx_of(&[("name", Value::text("World"))]);
    let curly = Template::parse("Hello, {name}!", '{', '}').unwrap();
    let angle = Template::parse("Hello, <name>!", '<', '>').unwrap();
    let percent = Template::parse("Hello, %name%!", '%', '%').unwrap();
    let a = curly.format(&ctx).unwrap();
    let b = angle.format(&ctx).unwrap();
    let c = percent.format(&ctx).unwrap();
    assert_eq!(a, "Hello, World!");
    assert_eq!(a, b);
    assert_eq!(a, c);
}

// ---------------------------------------------------------------------------
// repeat directives
// ---------------------------------------------------------------------------

#[test]
fn repeat_zero_times_is_empty() {
    let t = Template::parse_default("{x:0}").unwrap();
    let ctx = ctx_of(&[("x", Value::text("ab"))]);
    assert_eq!(t.format(&ctx).unwrap(), "");
}

#[test]
fn repeat_literal_count() {
    let t = Template::parse_default("{x:3}").unwrap();
    let ctx = ctx_of(&[("x", Value::text("ab"))]);
    assert_eq!(t.format(&ctx).unwrap(), "ababab");
}

#[test]
fn repeat_count_from_variable() {
    let t = Template::parse_default("{pattern:count}").unwrap();
    let ctx = ctx_of(&[("pattern", Value::text("*")), ("count", Value::Int(50))]);
    assert_eq!(t.format(&ctx).unwrap(), "*".repeat(50));
}

#[test]
fn repeat_stringifies_numeric_source() {
    let t = Template::parse_default("{n:2}").unwrap();
    let ctx = ctx_of(&[("n", Value::Int(7))]);
    assert_eq!(t.format(&ctx).unwrap(), "77");
}

#[test]
fn repeat_negative_count_is_invalid() {
    let t = Template::parse_default("{x:n}").unwrap();
    let ctx = ctx_of(&[("x", Value::text("a")), ("n", Value::Int(-1))]);
    assert_eq!(t.format(&ctx).unwrap_err(), FormatError::InvalidCount);
}

#[test]
fn repeat_count_must_be_int() {
    let t = Template::parse_default("{x:n}").unwrap();
    let ctx = ctx_of(&[("x", Value::text("a")), ("n", Value::text("three"))]);
    assert_eq!(
        t.format(&ctx).unwrap_err(),
        FormatError::TypeMismatch {
            name: "n".to_string(),
            expected: ValueKind::Int,
            found: ValueKind::Text,
        }
    );
}

// ---------------------------------------------------------------------------
// conditionals
// ---------------------------------------------------------------------------

#[test]
fn conditional_equal_true() {
    let t = Template::parse_default("{a==10?yes:no}").unwrap();
    let ctx = ctx_of(&[("a", Value::Int(10))]);
    assert_eq!(t.format(&ctx).unwrap(), "yes");
}

#[test]
fn conditional_equal_false() {
    let t = Template::parse_default("{a==10?yes:no}").unwrap();
    let ctx = ctx_of(&[("a", Value::Int(11))]);
    assert_eq!(t.format(&ctx).unwrap(), "no");
}

#[test]
fn conditional_bool_variable() {
    let t = Template::parse_default("{is_admin?Admin Panel:User Panel}").unwrap();
    assert_eq!(
        t.format(&ctx_of(&[("is_admin", Value::Bool(true))])).unwrap(),
        "Admin Panel"
    );
    assert_eq!(
        t.format(&ctx_of(&[("is_admin", Value::Bool(false))])).unwrap(),
        "User Panel"
    );
}

#[test]
fn conditional_orderings() {
    let ctx = ctx_of(&[("a", Value::Int(10)), ("b", Value::Int(20))]);
    for (text, expected) in [
        ("{a!=20?yes:no}", "yes"),
        ("{a<20?yes:no}", "yes"),
        ("{a<=10?yes:no}", "yes"),
        ("{b>10?yes:no}", "yes"),
        ("{b>=20?yes:no}", "yes"),
        ("{a>10?yes:no}", "no"),
    ] {
        let t = Template::parse_default(text).unwrap();
        assert_eq!(t.format(&ctx).unwrap(), expected, "template {}", text);
    }
}

#[test]
fn conditional_age_threshold() {
    let t = Template::parse_default("{age>=18?Adult:Minor}").unwrap();
    assert_eq!(t.format(&ctx_of(&[("age", Value::Int(25))])).unwrap(), "Adult");
    assert_eq!(t.format(&ctx_of(&[("age", Value::Int(17))])).unwrap(), "Minor");
}

#[test]
fn conditional_string_equality() {
    let t = Template::parse_default("{name==alice?yes:no}").unwrap();
    assert_eq!(t.format(&ctx_of(&[("name", Value::text("alice"))])).unwrap(), "yes");
    assert_eq!(t.format(&ctx_of(&[("name", Value::text("bob"))])).unwrap(), "no");
}

#[test]
fn conditional_ordering_on_text_is_mismatch() {
    let t = Template::parse_default("{name<alice?yes:no}").unwrap();
    let err = t.format(&ctx_of(&[("name", Value::text("bob"))])).unwrap_err();
    assert_eq!(
        err,
        FormatError::TypeMismatch {
            name: "name".to_string(),
            expected: ValueKind::Int,
            found: ValueKind::Text,
        }
    );
}

#[test]
fn conditional_bool_wanted_int_found() {
    let t = Template::parse_default("{flag?y:n}").unwrap();
    let err = t.format(&ctx_of(&[("flag", Value::Int(1))])).unwrap_err();
    assert_eq!(
        err,
        FormatError::TypeMismatch {
            name: "flag".to_string(),
            expected: ValueKind::Bool,
            found: ValueKind::Int,
        }
    );
}

#[test]
fn conditional_without_colon_has_empty_else() {
    let t = Template::parse_default("{ok?fine}").unwrap();
    assert_eq!(t.format(&ctx_of(&[("ok", Value::Bool(true))])).unwrap(), "fine");
    assert_eq!(t.format(&ctx_of(&[("ok", Value::Bool(false))])).unwrap(), "");
}

#[test]
fn conditional_cross_type_numeric_comparison() {
    let t = Template::parse_default("{a<3.5?yes:no}").unwrap();
    assert_eq!(t.format(&ctx_of(&[("a", Value::Int(3))])).unwrap(), "yes");
    assert_eq!(t.format(&ctx_of(&[("a", Value::Int(4))])).unwrap(), "no");
}

// ---------------------------------------------------------------------------
// switches
// ---------------------------------------------------------------------------

#[test]
fn switch_first_matching_case() {
    let t = Template::parse_default("{[status](active:Online)(inactive:Offline)}").unwrap();
    assert_eq!(t.format(&ctx_of(&[("status", Value::text("active"))])).unwrap(), "Online");
    assert_eq!(
        t.format(&ctx_of(&[("status", Value::text("inactive"))])).unwrap(),
        "Offline"
    );
}

#[test]
fn switch_without_match_is_empty() {
    let t = Template::parse_default("{[status](active:Online)(inactive:Offline)}").unwrap();
    assert_eq!(t.format(&ctx_of(&[("status", Value::text("unknown"))])).unwrap(), "");
}

#[test]
fn switch_declaration_order_wins() {
    let t = Template::parse_default("{[k](a:first)(a:second)}").unwrap();
    assert_eq!(t.format(&ctx_of(&[("k", Value::text("a"))])).unwrap(), "first");
}

#[test]
fn switch_matches_stringified_int() {
    let t = Template::parse_default("{[n](1:one)(2:two)}").unwrap();
    assert_eq!(t.format(&ctx_of(&[("n", Value::Int(2))])).unwrap(), "two");
}

// ---------------------------------------------------------------------------
// missing variables
// ---------------------------------------------------------------------------

#[test]
fn missing_variable_reports_name() {
    let t = Template::parse_default("{name}").unwrap();
    assert_eq!(
        t.format(&Context::new()).unwrap_err(),
        FormatError::MissingVariable("name".to_string())
    );
}

#[test]
fn missing_repeat_source_reports_name() {
    let t = Template::parse_default("{x:3}").unwrap();
    assert_eq!(
        t.format(&Context::new()).unwrap_err(),
        FormatError::MissingVariable("x".to_string())
    );
}

// ---------------------------------------------------------------------------
// end to end
// ---------------------------------------------------------------------------

#[test]
fn end_to_end_greeting() {
    let t = Template::parse_default("Hello, {first} {last}! You are {age} years old.").unwrap();
    let ctx = ctx_of(&[
        ("first", Value::text("John")),
        ("last", Value::text("Doe")),
        ("age", Value::Int(30)),
    ]);
    assert_eq!(t.format(&ctx).unwrap(), "Hello, John Doe! You are 30 years old.");
}

#[test]
fn template_is_reusable_across_contexts() {
    let t = Template::parse_default("{greeting} {name}!").unwrap();
    let a = ctx_of(&[("greeting", Value::text("Hello")), ("name", Value::text("Ada"))]);
    let b = ctx_of(&[("greeting", Value::text("Bye")), ("name", Value::text("Bob"))]);
    assert_eq!(t.format(&a).unwrap(), "Hello Ada!");
    assert_eq!(t.format(&b).unwrap(), "Bye Bob!");
}

// ---------------------------------------------------------------------------
// parse errors
// ---------------------------------------------------------------------------

#[test]
fn unterminated_directive() {
    assert_eq!(
        Template::parse_default("Hello, {name").unwrap_err(),
        ParseError::UnterminatedDirective
    );
}

#[test]
fn empty_directive() {
    assert_eq!(Template::parse_default("a{}b").unwrap_err(), ParseError::EmptyDirective);
}

#[test]
fn invalid_number_in_count() {
    assert_eq!(Template::parse_default("{x:1.5}").unwrap_err(), ParseError::InvalidNumber);
    assert_eq!(Template::parse_default("{x:-3}").unwrap_err(), ParseError::InvalidNumber);
}

#[test]
fn invalid_number_in_comparison() {
    assert_eq!(
        Template::parse_default("{a==99999999999999999999?y:n}").unwrap_err(),
        ParseError::InvalidNumber
    );
}

#[test]
fn count_at_u64_limit_parses() {
    assert!(Template::parse_default("{x:18446744073709551615}").is_ok());
    assert_eq!(
        Template::parse_default("{x:18446744073709551616}").unwrap_err(),
        ParseError::InvalidNumber
    );
}

#[test]
fn comparison_literal_with_long_fraction_is_invalid() {
    assert_eq!(
        Template::parse_default("{x==1.1234567890123456789?y:n}").unwrap_err(),
        ParseError::InvalidNumber
    );
    assert!(Template::parse_default("{x==0.5?y:n}").is_ok());
}

#[test]
fn unknown_directive_shape() {
    assert_eq!(
        Template::parse_default("{a b}").unwrap_err(),
        ParseError::UnknownDirectiveShape
    );
}

#[test]
fn switch_needs_at_least_one_case() {
    assert_eq!(
        Template::parse_default("{[status]}").unwrap_err(),
        ParseError::UnknownDirectiveShape
    );
}

#[test]
fn switch_case_needs_a_colon() {
    assert_eq!(
        Template::parse_default("{[s](a)}").unwrap_err(),
        ParseError::UnknownDirectiveShape
    );
}

#[test]
fn unbalanced_grouping() {
    assert_eq!(
        Template::parse_default("{[s](a:b}").unwrap_err(),
        ParseError::UnbalancedGrouping
    );
}

#[test]
fn first_error_aborts_parse() {
    // the unterminated directive at the end poisons the whole parse
    assert_eq!(
        Template::parse_default("fine {name} fine {oops").unwrap_err(),
        ParseError::UnterminatedDirective
    );
}

// ---------------------------------------------------------------------------
// decimals
// ---------------------------------------------------------------------------

#[test]
fn float_value_prints_decimally() {
    let t = Template::parse_default("{x}").unwrap();
    let ctx = ctx_of(&[("x", Value::Float(Decimal::new(314159, 5).unwrap()))]);
    assert_eq!(t.format(&ctx).unwrap(), "3.14159");
}

#[test]
fn float_fraction_pads_leading_zero() {
    let t = Template::parse_default("{x}").unwrap();
    let ctx = ctx_of(&[("x", Value::Float(Decimal::new(5, 3).unwrap()))]);
    assert_eq!(t.format(&ctx).unwrap(), "0.005");
}

#[test]
fn negative_float_prints_sign() {
    let t = Template::parse_default("{x}").unwrap();
    let ctx = ctx_of(&[("x", Value::Float(Decimal::new(-12345, 2).unwrap()))]);
    assert_eq!(t.format(&ctx).unwrap(), "-123.45");
}

#[test]
fn float_with_zero_scale_prints_whole() {
    let t = Template::parse_default("{x}").unwrap();
    let ctx = ctx_of(&[("x", Value::Float(Decimal::from_int(42)))]);
    assert_eq!(t.format(&ctx).unwrap(), "42");
}

#[test]
fn decimal_rejects_overlong_scale() {
    assert!(Decimal::new(1, 19).is_none());
    assert!(Decimal::new(1, 18).is_some());
}

#[test]
fn float_comparison_by_numeric_value() {
    let ctx = ctx_of(&[("x", Value::Float(Decimal::new(314, 2).unwrap()))]);
    let eq = Template::parse_default("{x==3.14?y:n}").unwrap();
    assert_eq!(eq.format(&ctx).unwrap(), "y");
    let eq_trailing = Template::parse_default("{x==3.140?y:n}").unwrap();
    assert_eq!(eq_trailing.format(&ctx).unwrap(), "y");
    let lt = Template::parse_default("{x<3.2?y:n}").unwrap();
    assert_eq!(lt.format(&ctx).unwrap(), "y");
    let gt = Template::parse_default("{x>4?y:n}").unwrap();
    assert_eq!(gt.format(&ctx).unwrap(), "n");
}

#[test]
fn negative_int_prints_sign() {
    let t = Template::parse_default("{n}").unwrap();
    assert_eq!(t.format(&ctx_of(&[("n", Value::Int(-42))])).unwrap(), "-42");
    assert_eq!(
        t.format(&ctx_of(&[("n", Value::Int(i64::MIN))])).unwrap(),
        "-9223372036854775808"
    );
}

#[test]
fn bool_values_print_words() {
    let t = Template::parse_default("{a} {b}").unwrap();
    let ctx = ctx_of(&[("a", Value::Bool(true)), ("b", Value::Bool(false))]);
    assert_eq!(t.format(&ctx).unwrap(), "true false");
}

// ---------------------------------------------------------------------------
// the tokenizer
// ---------------------------------------------------------------------------

#[test]
fn tokenize_plain_text_is_one_literal() {
    let ts = tokenize("foo == bar && baz != 42", '{', '}');
    assert_eq!(ts, vec![Token::Literal("foo == bar && baz != 42".to_string())]);
}

#[test]
fn tokenize_directive_parts() {
    let ts = tokenize("{age>=18?Adult:Minor}", '{', '}');
    assert_eq!(
        ts,
        vec![
            Token::Open,
            Token::Identifier("age".to_string()),
            Token::Operator(CmpOp::Ge),
            Token::NumberLiteral("18".to_string()),
            Token::Question,
            Token::Identifier("Adult".to_string()),
            Token::Colon,
            Token::Identifier("Minor".to_string()),
            Token::Close,
        ]
    );
}

#[test]
fn tokenize_same_char_delimiter_alternates() {
    let ts = tokenize("%name% ok", '%', '%');
    assert_eq!(
        ts,
        vec![
            Token::Open,
            Token::Identifier("name".to_string()),
            Token::Close,
            Token::Literal(" ok".to_string()),
        ]
    );
}

#[test]
fn tokenize_number_shapes() {
    let ts = tokenize("{a==-42?x:y}", '{', '}');
    assert_eq!(
        ts,
        vec![
            Token::Open,
            Token::Identifier("a".to_string()),
            Token::Operator(CmpOp::Eq),
            Token::NumberLiteral("-42".to_string()),
            Token::Question,
            Token::Identifier("x".to_string()),
            Token::Colon,
            Token::Identifier("y".to_string()),
            Token::Close,
        ]
    );
}

#[test]
fn tokenize_keeps_symbol_runs() {
    let ts = tokenize("{hello:world!@#$}", '{', '}');
    assert_eq!(
        ts,
        vec![
            Token::Open,
            Token::Identifier("hello".to_string()),
            Token::Colon,
            Token::Identifier("world".to_string()),
            Token::Literal("!@#$".to_string()),
            Token::Close,
        ]
    );
}

// ---------------------------------------------------------------------------
// shadowing in the context
// ---------------------------------------------------------------------------

#[test]
fn later_insert_shadows_earlier() {
    let t = Template::parse_default("{x}").unwrap();
    let mut ctx = Context::new();
    ctx.insert("x", Value::text("old"));
    ctx.insert("x", Value::text("new"));
    assert_eq!(t.format(&ctx).unwrap(), "new");
}
