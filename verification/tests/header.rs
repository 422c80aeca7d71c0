use translib::md::header::Header;
use translib::md::MdOperation;

#[test]
fn header_1() {
    let run_test = |level: usize| {
        let mut test_str: String = (0..level).map(|_| '#').collect();
        test_str.push(' ');
        let text = "Hello, world! how are you? Great.";
        test_str.push_str(text);
        test_str.push('\n');

        let (header, left) = Header::parse(&test_str).unwrap();
        assert_eq!(header.level(), level);
        assert_eq!(header.text(), text);
        assert_eq!(header.is_alt_syntax(), false);
        assert!(left.is_empty());
        assert_eq!(header.to_md_str(None).unwrap(), test_str);
    };

    run_test(1);
    run_test(2);
    run_test(3);
    run_test(4);
    run_test(5);
    run_test(6);
}

#[test]
fn header_2() {
    let run_test = |level: usize| {
        let mut test_str: String = (0..level).map(|_| '#').collect();
        test_str.push(' ');
        let text = "Hello, world! how are you? Great.";
        test_str.push_str(text);
        test_str.push('\n');
        let extra = "DUMMY";
        test_str.push_str(extra);

        let (header, left) = Header::parse(&test_str).unwrap();
        assert_eq!(header.level(), level);
        assert_eq!(header.text(), text);
        assert_eq!(header.is_alt_syntax(), false);
        assert_eq!(left, extra);
        assert_eq!(
            header.to_md_str(None).unwrap(),
            test_str.trim_end_matches(extra)
        );
    };

    run_test(1);
    run_test(2);
    run_test(3);
    run_test(4);
    run_test(5);
    run_test(6);
}

#[test]
fn header_3() {
    let text = "Hello, world! how are you? Great.";
    let mut test_str = text.to_owned();
    test_str.push_str("\n==\n");

    let (header, left) = Header::parse(&test_str).unwrap();
    assert_eq!(header.level(), 1);
    assert_eq!(header.text(), text);
    assert_eq!(header.is_alt_syntax(), true);
    assert!(left.is_empty());
    assert_eq!(header.to_md_str(None).unwrap(), format!("{}\n==\n", text));

    let mut test_str = text.to_owned();
    test_str.push_str("\n--\n");
    let (header, left) = Header::parse(&test_str).unwrap();
    assert_eq!(header.level(), 2);
    assert_eq!(header.text(), text);
    assert_eq!(header.is_alt_syntax(), true);
    assert!(left.is_empty());
    assert_eq!(header.to_md_str(None).unwrap(), format!("{}\n--\n", text));
}

#[test]
fn header_with_new_text_and_reparsed() {
    let (h, _) = Header::parse("###   Title text  \n").unwrap();
    assert_eq!(h.text(), "Title text");
    assert_eq!(h.level(), 3);
    assert_eq!(h.to_md_str(Some("Titre")).unwrap(), "### Titre\n");
    let md = h.to_md_str(None).unwrap();
    let (again, left) = Header::parse(&md).unwrap();
    assert_eq!(again.text(), h.text());
    assert_eq!(again.level(), h.level());
    assert!(left.is_empty());

    let (u, _) = Header::parse("Under\n----\n").unwrap();
    assert_eq!(u.to_md_str(Some("Sous")).unwrap(), "Sous\n--\n");
    assert!(Header::parse("Odd\n===\n").is_none());
    assert!(Header::parse("#no space\n").is_none());
}
