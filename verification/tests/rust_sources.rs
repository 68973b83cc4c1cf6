use cntryl_tools::validate_tests::rust::analyze_source;
use cntryl_tools::validate_tests::config::TestPolicyConfig;

#[test]
fn should_discover_test_with_intervening_attribute() {
    // Arrange
    let source = r#"
#[test]
#[allow(clippy::too_many_lines)]
fn should_remain_visible() {
    assert!(operation().is_ok());
}
"#;

    // Act
    let tests = analyze_source("src/lib.rs", source, &TestPolicyConfig::default())
        .expect("analyze Rust tests");

    // Assert
    assert_eq!(tests.len(), 1);
    assert_eq!(tests[0].name, "should_remain_visible");
}

#[test]
fn should_discover_test_attribute_imported_under_alias() {
    // Arrange
    let source = r#"
use tokio::test as async_test;

#[async_test]
async fn should_remain_visible() {
    assert!(operation().await.is_ok());
}

mod nested {
    use super::async_test;

    #[async_test]
    async fn should_also_remain_visible() {
        assert!(operation().await.is_ok());
    }
}
"#;

    // Act
    let tests = analyze_source("src/lib.rs", source, &TestPolicyConfig::default())
        .expect("analyze Rust tests");

    // Assert
    assert_eq!(tests.len(), 2);
    assert_eq!(tests[0].name, "should_remain_visible");
    assert_eq!(
        tests[1].qualified_name,
        "nested::should_also_remain_visible"
    );
}

#[test]
fn should_ignore_marker_text_inside_raw_string() {
    // Arrange
    let source = r##"
#[test]
fn should_parse_text() {
    let text = r#"
// Arrange
// Act
// Assert
"#;
    assert!(!text.is_empty());
}
"##;

    // Act
    let tests = analyze_source("src/lib.rs", source, &TestPolicyConfig::default())
        .expect("analyze Rust tests");

    // Assert
    assert_eq!(tests.len(), 1);
    assert!(tests[0].markers.is_empty());
}

#[test]
fn should_ignore_marker_text_inside_multiline_string() {
    // Arrange
    let source = r#"
#[test]
fn should_parse_text() {
    let text = "first line
// Arrange
// Act
// Assert
last line";
    assert!(!text.is_empty());
}
"#;

    // Act
    let tests = analyze_source("src/lib.rs", source, &TestPolicyConfig::default())
        .expect("analyze Rust tests");

    // Assert
    assert_eq!(tests.len(), 1);
    assert!(tests[0].markers.is_empty());
}

#[test]
fn should_parse_markers_after_character_literal() {
    // Arrange
    let source = r#"
#[test]
fn should_parse_character() {
    // Arrange
    let quote = '\"';
    // Act
    let actual = quote.to_string();
    // Assert
    assert_eq!(actual, "\"");
}
"#;

    // Act
    let tests = analyze_source("src/lib.rs", source, &TestPolicyConfig::default())
        .expect("analyze Rust tests");

    // Assert
    assert_eq!(tests[0].markers.len(), 3);
}

#[test]
fn should_ignore_markers_inside_nested_closure() {
    // Arrange
    let source = r#"
#[test]
fn should_parse_top_level_markers() {
    // Arrange
    let callback = || {
        // Act
        operation();
        // Assert
        assert!(true);
    };
    // Act
    callback();
    // Assert
    assert!(completed());
}
"#;

    // Act
    let tests = analyze_source("src/lib.rs", source, &TestPolicyConfig::default())
        .expect("analyze Rust tests");

    // Assert
    assert_eq!(tests[0].markers.len(), 3);
}

#[test]
fn should_keep_function_boundary_when_string_contains_brace() {
    // Arrange
    let source = r#"
#[test]
fn should_parse_first() {
    assert_eq!("{".len(), 1);
}

#[test]
fn should_parse_second() {
    assert_eq!("}".len(), 1);
}
"#;

    // Act
    let tests = analyze_source("src/lib.rs", source, &TestPolicyConfig::default())
        .expect("analyze Rust tests");

    // Assert
    assert_eq!(tests.len(), 2);
    assert_eq!(tests[0].line_count, 3);
}

#[test]
fn should_report_unicode_code_point_columns() {
    // Arrange
    let source = r#"
#[test]
fn should_measure_span() {
    let café = 1; assert_eq!(café, 1);
}
"#;
    let assertion_line = source.lines().nth(3).expect("assertion source line");
    let expected_column = assertion_line
        .find("assert_eq")
        .and_then(|byte| assertion_line.get(..byte))
        .map(|prefix| prefix.chars().count())
        .expect("assertion source column")
        + 1;

    // Act
    let tests = analyze_source("src/lib.rs", source, &TestPolicyConfig::default())
        .expect("analyze Rust tests");

    // Assert
    assert_eq!(tests[0].oracles[0].span.start.column, expected_column);
}

#[test]
fn should_not_treat_actual_as_an_act_marker() {
    // Arrange
    let source = r#"
#[test]
fn should_parse_comment() {
    // Actual response is intentionally named below.
    let actual = operation();
    assert_eq!(actual, 1);
}
"#;

    // Act
    let tests = analyze_source("src/lib.rs", source, &TestPolicyConfig::default())
        .expect("analyze Rust tests");

    // Assert
    assert!(tests[0].markers.is_empty());
}

fn expected_panic(attribute: &str) -> Option<String> {
    let source = format!("#[test]\n{attribute}\nfn should_panic_here() {{ run(); }}\n");
    let mut tests = analyze_source("src/lib.rs", &source, &TestPolicyConfig::default())
        .expect("analyze Rust tests");
    let test = tests.remove(0);
    assert!(test.should_panic);
    test.should_panic_expected
}

#[test]
fn should_read_the_expected_text_of_a_panic() {
    assert_eq!(expected_panic("#[should_panic]"), None);
    assert_eq!(expected_panic("#[should_panic = \"a\"]"), None);
    assert_eq!(
        expected_panic("#[should_panic(expected = \"a\")]").as_deref(),
        Some("a")
    );
    assert_eq!(
        expected_panic("#[should_panic(expected = \"a\", expected = \"b\")]").as_deref(),
        Some("b")
    );
    assert_eq!(
        expected_panic("#[should_panic(flag, expected = \"a\")]").as_deref(),
        Some("a")
    );
    assert_eq!(
        expected_panic("#[should_panic(expected = \"a\", other = \"x\", expected = \"b\")]").as_deref(),
        Some("a")
    );
    assert_eq!(expected_panic("#[should_panic(other = \"x\", expected = \"b\")]"), None);
    assert_eq!(expected_panic("#[should_panic(expected = 7)]"), None);
    assert_eq!(expected_panic("#[should_panic(expected(\"a\"))]"), None);
    for value in ["\"a\" + b", "\"a\"..", "\"a\".b()", "\"a\" +", "\"a\" b"] {
        let attribute = format!("#[should_panic(expected = {value}, expected = \"c\")]");
        assert_eq!(expected_panic(&attribute).as_deref(), Some("a"), "{value}");
    }
    for value in ["..\"a\"", "#[x] \"a\"", "(\"a\")", "+"] {
        let attribute = format!("#[should_panic(expected = {value}, expected = \"c\")]");
        assert_eq!(expected_panic(&attribute), None, "{value}");
    }
}

fn sleeps(attribute: &str) -> usize {
    let source = format!(
        "use std::time::Duration;\n{attribute}\nasync fn should_wait() {{\n    tokio::time::sleep(Duration::from_secs(1)).await;\n}}\n"
    );
    let tests = analyze_source("src/lib.rs", &source, &TestPolicyConfig::default())
        .expect("analyze Rust tests");
    tests[0].hygiene.len()
}

#[test]
fn should_read_whether_time_starts_paused() {
    assert_eq!(sleeps("#[tokio::test]"), 1);
    assert_eq!(sleeps("#[tokio::test(start_paused = true)]"), 0);
    assert_eq!(sleeps("#[tokio::test(start_paused = false)]"), 1);
    assert_eq!(
        sleeps("#[tokio::test(flavor = \"current_thread\", start_paused = true)]"),
        0
    );
    assert_eq!(
        sleeps("#[tokio::test(start_paused = true, start_paused = \"x\")]"),
        0
    );
    assert_eq!(
        sleeps("#[tokio::test(flavor(\"current_thread\"), start_paused = true)]"),
        1
    );
    assert_eq!(sleeps("#[tokio::test(start_paused = true.., start_paused = false)]"), 0);
    assert_eq!(sleeps("#[tokio::test(start_paused = true &&)]"), 0);
    assert_eq!(sleeps("#[tokio::test(worker_threads = 1 + 1, start_paused = true)]"), 0);
    assert_eq!(sleeps("#[tokio::test(flavor = +, start_paused = true)]"), 1);
    assert_eq!(sleeps("#[tokio::test(paused = true)]"), 1);
}
