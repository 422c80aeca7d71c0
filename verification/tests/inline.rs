use translib::md::bold::Bold;
use translib::md::italic::Italic;
use translib::md::normal::NormalText;
use translib::md::MdOperation;

#[test]
fn bold_1() {
    let run_test = |test_str: &str| {
        let (p, left) = Bold::parse(test_str).unwrap();
        let end = if test_str.starts_with("**") {
            test_str[2..].find("**").unwrap() + 2
        } else if test_str.starts_with("__") {
            test_str[2..].find("__").unwrap() + 2
        } else {
            unreachable!();
        };

        let expected_text = &test_str[2..end];
        let expected_left = &test_str[end + 2..];

        assert_eq!(p.text(), expected_text);
        if expected_left.is_empty() {
            assert!(left.is_empty());
        } else {
            assert_eq!(left, expected_left);
        }
    };

    run_test("__abc__");
    run_test("**abc**");
    run_test("**abc**d");
    run_test("__abc__d");
    run_test("**abc***d");
    run_test("__abc___d");
}

#[test]
fn bold_2() {
    assert!(Bold::parse("____").is_none());
    assert!(Bold::parse("****").is_none());
    assert!(Bold::parse("____a_").is_none());
    assert!(Bold::parse("****a*").is_none());
}

#[test]
fn italic_1() {
    let run_test = |test_str: &str| {
        let (p, left) = Italic::parse(test_str).unwrap();
        let end = if test_str.starts_with("*") {
            test_str[1..].find('*').unwrap() + 1
        } else if test_str.starts_with("_") {
            test_str[1..].find('_').unwrap() + 1
        } else {
            unreachable!();
        };

        let text = &test_str[1..end];
        let expected_left = &test_str[end + 1..];

        assert_eq!(p.text(), text);
        if expected_left.is_empty() {
            assert!(left.is_empty());
        } else {
            assert_eq!(left, expected_left);
        }
    };

    run_test("_abc_");
    run_test("*abc*");
    run_test("*abc*d");
    run_test("_abc_d");
    run_test("*abc**d");
    run_test("_abc__d");
}

#[test]
fn italic_2() {
    assert!(Italic::parse("__").is_none());
    assert!(Italic::parse("**").is_none());
    assert!(Italic::parse("__a_").is_none());
    assert!(Italic::parse("**a*").is_none());
}

#[test]
fn normal_text_1() {
    let run_test = |test_str: &str, expected_left: &str| {
        let (parsed, left) = NormalText::parse(test_str).unwrap();
        assert_eq!(parsed.text(), test_str.trim());
        assert_eq!(left, expected_left);
    };

    run_test("This is a test", "");
    run_test(" This is a test ", "");
    run_test("1This is a test2", "");
    run_test("'#@;:,.'", "");
    run_test("1. abc", "");
    run_test("**a**", "");
    run_test("__a__", "");
    run_test("*_a_*", "");
    run_test("_*a*_", "");
}

#[test]
fn normal_text_2() {
    let run_test = |test_str: &str| {
        assert!(NormalText::parse(test_str).is_none());
    };

    run_test("1. abc\n");
    run_test("2. abc\n");
    run_test("* abc\n");
    run_test("- abc\n");
    run_test("+ abc\n");
    run_test("+ abc\n");
}

#[test]
fn inline_text_is_stripped_of_stars() {
    let (b, left) = Bold::parse("__*x*__ rest").unwrap();
    assert_eq!(b.text(), "x");
    assert_eq!(left, " rest");
    let (i, _) = Italic::parse("_**y**_").unwrap();
    assert_eq!(i.text(), "y");
    assert!(Italic::parse("*a\nb*").is_none());
}

#[test]
fn normal_text_to_md() {
    let (n, left) = NormalText::parse("  plain words  \nnext").unwrap();
    assert_eq!(n.text(), "plain words");
    assert_eq!(left, "\nnext");
    assert_eq!(n.to_md_str(None).unwrap(), "plain words\n");
    assert_eq!(n.to_md_str(Some("mots")).unwrap(), "mots\n");
}
