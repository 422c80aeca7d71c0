use translib::md::grammar::{
    bold, headings, headings1, headings2, item, italic, linebreak, mark, non_number_item, normal,
    number_item, paragraph, single_ref, words, Rule,
};

#[test]
fn words_1() {
    let run_test = |test_str: &str| {
        let pair = words(test_str).unwrap();
        assert_eq!(pair, test_str);
    };

    run_test("abc");
    run_test("ABC");
    run_test("Abc");
    run_test("abcdef");
    run_test("1 def");
    run_test("1 2");
    run_test("a1b 2bc");
    run_test("b b");
}

#[test]
fn words_2() {
    let run_test = |test_str: &str| {
        assert!(words(test_str).is_none());
    };

    run_test("@");
    run_test("#");
    run_test("-");
}

#[test]
fn header_marks_1() {
    let run_test = |test_str: &str| {
        let pair = mark(test_str).unwrap();
        assert_eq!(pair, test_str);
    };

    run_test("#");
    run_test("+");
    run_test("-");
    run_test("@");
    run_test("_");
    run_test("/");
    run_test("\\");
    run_test("|");
    run_test("\"");
    run_test("\'");
    run_test("`");
    run_test("~");
    run_test("?");
    run_test(".");
    run_test(",");
    run_test(";");
}

#[test]
fn headings1_1() {
    let run_test = |test_str: &str| {
        let pair = headings1(test_str).unwrap();
        assert_eq!(pair, test_str);
    };

    run_test("# Hello\n");
    run_test("# Hello, world!\n");
    run_test("# Hello, world! how are you?\n");
    run_test("# Hello, world! how are you? Great.\n");
    run_test("# 1 Hello, world! how are you? Great.\n");
    run_test("# 1 2 Hello, world! how are you? Great.\n");
    run_test("# @ # ? - _ + - / \\ ~ , ; . |\n");
}

#[test]
fn headings2_1() {
    let run_test = |test_str: &str| {
        let pair = headings2(test_str).unwrap();
        assert_eq!(pair, test_str);
    };

    run_test("Hello\n==\n");
    run_test("Hello\n--\n");
    run_test("Hello, world!\n==\n");
    run_test("Hello, world!\n--\n");
    run_test("Hello, world! how are you?\n==\n");
    run_test("Hello, world! how are you?\n--\n");
    run_test("Hello, world! how are you? Great.\n==\n");
    run_test("Hello, world! how are you? Great.\n--\n");
    run_test("1 Hello, world! how are you? Great.\n==\n");
    run_test("1 Hello, world! how are you? Great.\n--\n");
    run_test("1 2 Hello, world! how are you? Great.\n==\n");
    run_test("1 2 Hello, world! how are you? Great.\n--\n");
    run_test("1 2 Hello, world! how are you? Great.\n====\n");
    run_test("1 2 Hello, world! how are you? Great.\n----\n");
}

#[test]
fn headings2_2() {
    let run_test = |test_str: &str| {
        assert!(headings2(test_str).is_none());
    };

    run_test("1 2 Hello, world! how are you? Great.\n===\n");
    run_test("1 2 Hello, world! how are you? Great.\n---\n");
    run_test("1 2 Hello, world! how are you? Great.\n==--\n");
    run_test("1 2 Hello, world! how are you? Great.\n--==\n");
}

#[test]
fn normal_1() {
    let run_test = |test_str: &str, left: &str| {
        let pair = normal(test_str).unwrap();
        assert_eq!(pair, test_str.trim_end_matches(left));
    };

    run_test("abc", "");
    run_test("1 2 Hello, world! how are you? Great", "");
    run_test("1 2 Hello, world! how are you? Great", "");
    run_test("1@2#Hello, \"world! 'how are you? Great", "");
    run_test("_1@2#Hello, \"world! 'how are you? Great", "");
    run_test("abc\n", "\n");
    run_test(" abc\n", "\n");
    run_test("**abc", "");
    run_test("**abc*", "");
    run_test("__abc", "");
    run_test("__abc_", "");
    run_test("abc**def**", "");
}

#[test]
fn normal_2() {
    let run_test = |test_str: &str| assert!(normal(test_str).is_none());

    run_test("\nabc");
    run_test("\n\nabc");
}

#[test]
fn non_number_item_1() {
    let run_test = |test_str: &str, left: &str| {
        let pair = non_number_item(test_str).unwrap();
        assert_eq!(pair, test_str.trim_end_matches(left));
    };

    run_test("* item\n", "");
    run_test("   * item\n", "");
    run_test(" * item, hello world!\n", "");
    run_test(" * item, hello world! **abc**\n", "");
    run_test(" * item, hello world! __abc__\n", "");
    run_test("* abc*\n", "");
    run_test("* abc\nabc", "abc");

    run_test("- item\n", "");
    run_test("   - item\n", "");
    run_test(" - item, hello world!\n", "");
    run_test(" - item, hello world! __abc__\n", "");
    run_test("- abc-\n", "");
    run_test("- abc\nabc", "abc");
}

#[test]
fn non_number_item_2() {
    let run_test = |test_str: &str| {
        assert!(non_number_item(test_str).is_none());
    };

    run_test("*item\n");
    run_test("** item\n");
    run_test("* item");
    run_test("_item\n");
    run_test("__ item\n");
    run_test("_ item");
}

#[test]
fn number_item_1() {
    let run_test = |test_str: &str, left: &str| {
        let pair = number_item(test_str).unwrap();
        assert_eq!(pair, test_str.trim_end_matches(left));
    };

    run_test("1. item\n", "");
    run_test("1. item.\n", "");
    run_test("1. Hello world! How are you? Great! \n", "");
    run_test("1. **Hello world**!\n", "");
    run_test("1. __Hello world__!\n", "");
    run_test("1. item.\n\nabc", "\nabc");
    run_test("  1. item.\n\nabc", "\nabc");
    run_test("  1. item.\n \nabc", " \nabc");
}

#[test]
fn number_item_2() {
    let run_test = |test_str: &str| {
        assert!(number_item(test_str).is_none());
    };

    run_test("1 item\n");
    run_test(" 1 item\n");
    run_test("a. item\n");
    run_test("a) item\n");
}

#[test]
fn rules_on_other_inputs() {
    assert_eq!(words("ab  cd"), Some("ab"));
    assert_eq!(words("ab cd "), Some("ab cd"));
    assert!(mark("a").is_none());
    assert_eq!(headings("## two\nrest"), Some("## two\n"));
    assert_eq!(headings("two\n--\nrest"), Some("two\n--\n"));
    assert!(headings("#two\n").is_none());
    assert!(headings(" two\n==\n").is_none());
    assert_eq!(item("12. twelve\n"), Some("12. twelve\n"));
    assert_eq!(item("+ plus\n"), Some("+ plus\n"));
    assert!(item("+ plus").is_none());
    assert_eq!(paragraph("a\nb\n\nc"), Some("a\nb\n\n"));
    assert_eq!(paragraph("a\n"), Some("a\n"));
    assert!(paragraph("a\n* b\n").is_none());
    assert_eq!(paragraph("a"), Some("a"));
    assert!(paragraph("a\nb").is_some());
    assert_eq!(linebreak("<br>x"), Some("<br>"));
    assert_eq!(bold("**a**b"), Some("**a**"));
    assert!(bold("**a\n**").is_none());
    assert_eq!(italic("_a_b"), Some("_a_"));
    assert_eq!(single_ref("  >\nx"), Some("  >\n"));
    assert!(single_ref("> x").is_none());
    assert_eq!(Rule::headings.name(), "headings");
    assert_eq!(Rule::word.name(), "word");
    assert_eq!(Rule::bold.name(), "...");
}
