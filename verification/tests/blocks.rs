use translib::md::item::Item;
use translib::md::paragraph::{LineBreak, Paragraph};
use translib::md::reference::{MultipleLineRef, SingleLineRef};
use translib::md::MdOperation;

#[test]
fn item_1() {
    let run_test = |test_str: &str,
                    expect_text: &str,
                    expect_mark: Option<char>,
                    expect_level: usize,
                    expect_left: &str| {
        let (item, left) = Item::parse(test_str).unwrap();
        assert_eq!(item.text(), expect_text);
        assert_eq!(item.mark(), expect_mark);
        assert_eq!(item.level(), expect_level);
        assert_eq!(left, expect_left);
    };

    run_test("1. This is item of level 1.\n", "This is item of level 1.", None, 1, "");
    run_test("  1. This is item of level 2.\n", "This is item of level 2.", None, 2, "");
    run_test("    1. This is item of level 3.\n", "This is item of level 3.", None, 3, "");
    run_test("    1. This is item of level 3.\nabc", "This is item of level 3.", None, 3, "abc");
    run_test("2. This is item of level 1.\n", "This is item of level 1.", None, 1, "");
    run_test("  2. This is item of level 2.\n", "This is item of level 2.", None, 2, "");
    run_test("    3. This is item of level 3.\n", "This is item of level 3.", None, 3, "");
    run_test("* This is item of level 1.\n", "This is item of level 1.", Some('*'), 1, "");
    run_test("  * This is item of level 2.\n", "This is item of level 2.", Some('*'), 2, "");
    run_test("    * This is item of level 3.\n", "This is item of level 3.", Some('*'), 3, "");
    run_test("- This is item of level 1.\n", "This is item of level 1.", Some('-'), 1, "");
    run_test("  - This is item of level 2.\n", "This is item of level 2.", Some('-'), 2, "");
    run_test("    - This is item of level 3.\n", "This is item of level 3.", Some('-'), 3, "");
    run_test("+ This is item of level 1.\n", "This is item of level 1.", Some('+'), 1, "");
    run_test("  + This is item of level 2.\n", "This is item of level 2.", Some('+'), 2, "");
    run_test("    + This is item of level 3.\n", "This is item of level 3.", Some('+'), 3, "");
}

#[test]
fn item_kinds_and_output() {
    let (n, _) = Item::parse("   10. ten\n").unwrap();
    assert!(n.number_item());
    assert_eq!(n.level(), 2);
    assert_eq!(n.to_md_str(None).unwrap(), "ten\n");
    let (b, _) = Item::parse("- dash\n").unwrap();
    assert!(!b.number_item());
    assert_eq!(b.to_md_str(Some("tiret")).unwrap(), "tiret\n");
    assert!(Item::parse("-dash\n").is_none());
}

#[test]
fn linebreak_1() {
    let run_test = |test_str: &str| {
        let (lb, left) = LineBreak::parse(test_str).unwrap();
        assert_eq!(lb.text(), "");
        assert_eq!(left, &test_str[3..])
    };

    run_test("<br>");
    run_test("<br>a");
    run_test("  \n");
    run_test("  \na");
}

#[test]
fn linebreak_2() {
    let run_test = |test_str: &str| {
        assert!(LineBreak::parse(test_str).is_none());
    };

    run_test("  a\n");
    run_test("   \na");
    run_test("    a");
}

#[test]
fn paragraph_1() {
    let run_test = |test_str: &str, expected: &str, expected_left: &str| {
        let (p, left) = Paragraph::parse(test_str).unwrap();
        assert_eq!(p.text(), expected);
        assert_eq!(left, expected_left);
    };

    run_test("abc def\n\n", "abc def", "\n");
    run_test("abc.def\n\n", "abc.def", "\n");
    run_test("a,;f.f\n\n", "a,;f.f", "\n");
    run_test("abc  \ndef\n\n", "abc   def", "\n");
    run_test("abc def\n\nextra text", "abc def", "\nextra text");
    run_test(
        "2nd paragraph. *Italic*, **bold**, and `monospace`. Itemized lists\nlook like:\n\nextra text",
        "2nd paragraph. *Italic*, **bold**, and `monospace`. Itemized lists look like:", "\nextra text");
    run_test(
        "Use 3 dashes for an em-dash. Use 2 dashes for ranges (ex., \"it's all\nin chapters 12--14\"). Three dots ... will be converted to an ellipsis.\nUnicode is supported.\n\n",
        "Use 3 dashes for an em-dash. Use 2 dashes for ranges (ex., \"it's all in chapters 12--14\"). Three dots ... will be converted to an ellipsis. Unicode is supported.", "\n");
}

#[test]
fn paragraph_ends() {
    let (p, left) = Paragraph::parse("last line\n").unwrap();
    assert_eq!(p.text(), "last line");
    assert_eq!(left, "\n");
    let (p, left) = Paragraph::parse("no end").unwrap();
    assert_eq!(p.text(), "no end");
    assert_eq!(left, "d");
    assert!(Paragraph::parse("text\n> quote\n").is_none());
    assert_eq!(p.to_md_str(Some("fin")).unwrap(), "fin\n");
}

#[test]
fn single_line_ref_1() {
    let run_test = |test_str: &str, expect_text: &str, expect_left: &str| {
        let (single_ref, left) = SingleLineRef::parse(test_str).unwrap();
        assert_eq!(single_ref.text(), expect_text);
        assert_eq!(left, expect_left);
    };

    run_test("> reference 1\n", "reference 1", "");
    run_test(">reference 2\n", "reference 2", "");
    run_test("  >reference 3\n", "reference 3", "");
    run_test("  > reference 4\n", "reference 4", "");
    run_test("  > reference state.\n", "reference state.", "");
}

#[test]
fn single_line_ref_leftover() {
    let (_, left) = SingleLineRef::parse("> a\nb").unwrap();
    assert_eq!(left, "");
    let (_, left) = SingleLineRef::parse("> a\nbc").unwrap();
    assert_eq!(left, "bc");
    let (_, left) = SingleLineRef::parse("> a\n\u{263a}").unwrap();
    assert_eq!(left, "\u{263a}");
}

#[test]
fn multiple_line_ref_1() {
    let run_test = |test_str: &str, expect_text: &str, expect_left: &str| {
        let (multi_line_ref, left) = MultipleLineRef::parse(test_str).unwrap();
        assert_eq!(multi_line_ref.text(), expect_text);
        assert_eq!(left.trim(), expect_left);
    };

    let text_str = "> First line\n> Second line\n";

    run_test(text_str, "First line\nSecond line", "");
}

#[test]
fn multiple_line_ref_output() {
    let (r, left) = MultipleLineRef::parse("> one\n>\n> two\n\nafter").unwrap();
    assert_eq!(r.text(), "one\n\ntwo");
    assert_eq!(left, "\nafter");
    assert_eq!(r.to_md_str(None).unwrap(), "> one\n> \n> two\n");
    assert_eq!(r.to_md_str(Some("un\ndeux")).unwrap(), "> un\n> deux\n");
    assert!(MultipleLineRef::parse(">\n>\n").is_none());
}

#[test]
fn quote_written_back_reads_back() {
    assert!(MultipleLineRef::parse("").is_none());
    let (r, _) = MultipleLineRef::parse(">\n>  first  \n>\n> second\n>\n").unwrap();
    assert_eq!(r.text(), "first\n\nsecond");
    let md = r.to_md_str(None).unwrap();
    assert_eq!(md, "> first\n> \n> second\n");
    let (again, left) = MultipleLineRef::parse(&md).unwrap();
    assert_eq!(again.text(), r.text());
    assert!(left.is_empty());
}

#[test]
fn paragraph_text_is_one_line() {
    let (p, _) = Paragraph::parse("one\ntwo\nthree\n\n").unwrap();
    assert_eq!(p.text(), "one two three");
    assert!(!p.text().contains('\n'));
}
