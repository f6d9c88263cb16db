use hx_utils::{transform_line, CaseType};

#[test]
fn test_case_type_from_str() {
    assert!(matches!(CaseType::from_str("p"), Ok(CaseType::Pascal)));
    assert!(matches!(CaseType::from_str("pascal"), Ok(CaseType::Pascal)));
    assert!(matches!(CaseType::from_str("c"), Ok(CaseType::Camel)));
    assert!(matches!(CaseType::from_str("camel"), Ok(CaseType::Camel)));
    assert!(matches!(CaseType::from_str("s"), Ok(CaseType::Snake)));
    assert!(matches!(CaseType::from_str("snake"), Ok(CaseType::Snake)));
    assert!(matches!(
        CaseType::from_str("ss"),
        Ok(CaseType::ScreamingSnake)
    ));
    assert!(matches!(CaseType::from_str("k"), Ok(CaseType::Kebab)));
    assert!(matches!(CaseType::from_str("kebab"), Ok(CaseType::Kebab)));
    assert!(CaseType::from_str("invalid").is_err());
}

#[test]
fn test_transform() {
    let test_str = "hello world";
    assert_eq!(CaseType::Pascal.transform(test_str), "HelloWorld");
    assert_eq!(CaseType::Camel.transform(test_str), "helloWorld");
    assert_eq!(CaseType::Snake.transform(test_str), "hello_world");
    assert_eq!(CaseType::ScreamingSnake.transform(test_str), "HELLO_WORLD");
    assert_eq!(CaseType::Kebab.transform(test_str), "hello-world");
}

#[test]
fn test_transform_line() {
    let complex_input = "hello   world\tsnake_case_here\nPascalCaseWord\tcamelCaseTest   SCREAMING_SNAKE_CASE\nkebab-case-test";

    assert_eq!(
        transform_line(&CaseType::Pascal, complex_input),
        "Hello   World\tSnakeCaseHere\nPascalCaseWord\tCamelCaseTest   ScreamingSnakeCase\nKebabCaseTest"
    );

    assert_eq!(
        transform_line(&CaseType::Camel, complex_input),
        "hello   world\tsnakeCaseHere\npascalCaseWord\tcamelCaseTest   screamingSnakeCase\nkebabCaseTest"
    );

    assert_eq!(
        transform_line(&CaseType::Snake, complex_input),
        "hello   world\tsnake_case_here\npascal_case_word\tcamel_case_test   screaming_snake_case\nkebab_case_test"
    );

    assert_eq!(
        transform_line(&CaseType::ScreamingSnake, complex_input),
        "HELLO   WORLD\tSNAKE_CASE_HERE\nPASCAL_CASE_WORD\tCAMEL_CASE_TEST   SCREAMING_SNAKE_CASE\nKEBAB_CASE_TEST"
    );

    assert_eq!(
        transform_line(&CaseType::Kebab, complex_input),
        "hello   world\tsnake-case-here\npascal-case-word\tcamel-case-test   screaming-snake-case\nkebab-case-test"
    );
}

#[test]
fn test_from_str_case_insensitive() {
    assert!(matches!(CaseType::from_str("P"), Ok(CaseType::Pascal)));
    assert!(matches!(CaseType::from_str("PASCAL"), Ok(CaseType::Pascal)));
    assert!(matches!(CaseType::from_str("Camel"), Ok(CaseType::Camel)));
    assert!(matches!(CaseType::from_str("SNAKE"), Ok(CaseType::Snake)));
    assert!(matches!(
        CaseType::from_str("Ss"),
        Ok(CaseType::ScreamingSnake)
    ));
    assert!(matches!(
        CaseType::from_str("SCREAMING-SNAKE"),
        Ok(CaseType::ScreamingSnake)
    ));
    assert!(matches!(CaseType::from_str("K"), Ok(CaseType::Kebab)));
    assert!(matches!(CaseType::from_str("Kebab"), Ok(CaseType::Kebab)));
}

#[test]
fn test_from_str_error_carries_token() {
    match CaseType::from_str("dromedary") {
        Err(msg) => assert_eq!(msg, "Unknown case type: dromedary"),
        Ok(_) => panic!("unrecognized token was accepted"),
    }
    assert!(CaseType::from_str("").is_err());
    assert!(CaseType::from_str("pascal ").is_err());
    assert!(CaseType::from_str("screaming_snake").is_err());
}

#[test]
fn test_whitespace_runs_preserved() {
    let input = "  alpha_beta\t\tGammaDelta \n\n epsilon  ";
    let out = transform_line(&CaseType::Kebab, input);
    assert_eq!(out, "  alpha-beta\t\tgamma-delta \n\n epsilon  ");
    let spaces_in: Vec<char> = input.chars().filter(|c| c.is_whitespace()).collect();
    let spaces_out: Vec<char> = out.chars().filter(|c| c.is_whitespace()).collect();
    assert_eq!(spaces_in, spaces_out);
}

#[test]
fn test_idempotence_on_styled_words() {
    let cases = [
        (CaseType::Pascal, "HelloWorld"),
        (CaseType::Camel, "helloWorld"),
        (CaseType::Snake, "hello_world"),
        (CaseType::ScreamingSnake, "HELLO_WORLD"),
        (CaseType::Kebab, "hello-world"),
    ];
    for (style, styled) in cases {
        let once = style.transform(styled);
        assert_eq!(once, styled);
        let twice = style.transform(&once);
        assert_eq!(twice, once);
    }
}

#[test]
fn test_empty_input() {
    assert_eq!(transform_line(&CaseType::Pascal, ""), "");
    assert_eq!(transform_line(&CaseType::Camel, ""), "");
    assert_eq!(transform_line(&CaseType::Snake, ""), "");
    assert_eq!(transform_line(&CaseType::ScreamingSnake, ""), "");
    assert_eq!(transform_line(&CaseType::Kebab, ""), "");
}

#[test]
fn test_whitespace_only_input() {
    let ws = " \t\n\r  \u{a0}";
    assert_eq!(transform_line(&CaseType::Pascal, ws), ws);
    assert_eq!(transform_line(&CaseType::Camel, ws), ws);
    assert_eq!(transform_line(&CaseType::Snake, ws), ws);
    assert_eq!(transform_line(&CaseType::ScreamingSnake, ws), ws);
    assert_eq!(transform_line(&CaseType::Kebab, ws), ws);
}

#[test]
fn test_mixed_delimiters_resplit() {
    assert_eq!(
        CaseType::Snake.transform("snake_case-kebabPart"),
        "snake_case_kebab_part"
    );
    assert_eq!(
        CaseType::Pascal.transform("snake_case-kebabPart"),
        "SnakeCaseKebabPart"
    );
    assert_eq!(
        CaseType::Camel.transform("SCREAMING_SNAKE"),
        "screamingSnake"
    );
}

#[test]
fn test_delimiter_only_word_vanishes() {
    assert_eq!(CaseType::Snake.transform("___"), "");
    assert_eq!(transform_line(&CaseType::Snake, " ___ "), "  ");
}

#[test]
fn test_acronym_and_digit_policy() {
    // A run of capitals stays one sub-word; a capital after a digit opens
    // a new one.
    assert_eq!(CaseType::Pascal.transform("HTMLParser"), "Htmlparser");
    assert_eq!(CaseType::Snake.transform("HTMLParser"), "htmlparser");
    assert_eq!(CaseType::Snake.transform("abc1Def"), "abc1_def");
    assert_eq!(CaseType::Kebab.transform("value2X"), "value2-x");
}

#[test]
fn test_non_ascii_passthrough() {
    // Only ASCII letters are case-mapped; other characters pass through.
    assert_eq!(CaseType::Snake.transform("Grüße"), "grüße");
    assert_eq!(transform_line(&CaseType::Pascal, "über_all"), "überAll");
}
