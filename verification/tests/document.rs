use translib::md::header::Header;
use translib::md::item::Item;
use translib::md::paragraph::Paragraph;
use translib::md::reference::MultipleLineRef;
use translib::md::{is_markdown_file, md_parse, md_try_parse, MdEntry, MdOperation};

const MARKDOWN_SAMPLE: &str = "# An h1 header

This is the main style.

An h1 header
============

Paragraphs are separated by a blank line.

2nd paragraph. *Italic*, **bold**, and `monospace`. Itemized lists
look like:

  * this one
  * that one
  * the other one

  1. first one
  2. second one
  3. third one

Note that --- not considering the asterisk --- the actual text
content starts at 4-columns in.

> Block quotes are > abc
> written like so.
>
> They can span multiple paragraphs,
> if you like.

Use 3 dashes for an em-dash. Use 2 dashes for ranges (ex., \"it's all
in chapters 12--14\"). Three dots ... will be converted to an ellipsis.
Unicode is supported.
";

#[test]
fn file_parse_1() {
    let markdown = MARKDOWN_SAMPLE;
    let (header, left) = Header::parse(&markdown).unwrap();
    let left = left.trim_matches('\n');
    assert_eq!(header.text(), "An h1 header");
    assert_eq!(header.level(), 1);
    assert_eq!(header.is_alt_syntax(), false);

    let (p, left) = Paragraph::parse(&left).unwrap();
    let left = left.trim_matches('\n');
    assert_eq!(p.text(), "This is the main style.");

    let (header, left) = Header::parse(&left).unwrap();
    let left = left.trim_matches('\n');
    assert_eq!(header.text(), "An h1 header");
    assert_eq!(header.level(), 1);
    assert_eq!(header.is_alt_syntax(), true);

    let (p, left) = Paragraph::parse(&left).unwrap();
    let left = left.trim_matches('\n');
    assert_eq!(p.text(), "Paragraphs are separated by a blank line.");

    let (p, left) = Paragraph::parse(&left).unwrap();
    let left = left.trim_matches('\n');
    assert_eq!(
        p.text(),
        "2nd paragraph. *Italic*, **bold**, and `monospace`. Itemized lists look like:"
    );

    let (p, left) = Item::parse(&left).unwrap();
    let left = left.trim_matches('\n');
    assert_eq!(p.text(), "this one");

    let (p, left) = Item::parse(&left).unwrap();
    let left = left.trim_matches('\n');
    assert_eq!(p.text(), "that one");

    let (p, left) = Item::parse(&left).unwrap();
    let left = left.trim_matches('\n');
    assert_eq!(p.text(), "the other one");

    let (p, left) = Item::parse(&left).unwrap();
    let left = left.trim_matches('\n');
    assert_eq!(p.text(), "first one");

    let (p, left) = Item::parse(&left).unwrap();
    let left = left.trim_matches('\n');
    assert_eq!(p.text(), "second one");

    let (p, left) = Item::parse(&left).unwrap();
    let left = left.trim_matches('\n');
    assert_eq!(p.text(), "third one");

    let (p, left) = Paragraph::parse(&left).unwrap();
    let left = left.trim_matches('\n');
    assert_eq!(
        p.text(),
        "Note that --- not considering the asterisk --- the actual text content starts at 4-columns in."
    );

    let (p, left) = MultipleLineRef::parse(&left).unwrap();
    let left = left.trim_matches('\n');
    assert_eq!(
        p.text(),
        "Block quotes are > abc\nwritten like so.\n\nThey can span multiple paragraphs,\nif you like."
    );

    let (p, left) = Paragraph::parse(&left).unwrap();
    let _left = left.trim_matches('\n');
    assert_eq!(
        p.text(),
        "Use 3 dashes for an em-dash. Use 2 dashes for ranges (ex., \"it's all in chapters 12--14\"). Three dots ... will be converted to an ellipsis. Unicode is supported.");
}

fn kind(e: &MdEntry) -> &'static str {
    match e {
        MdEntry::Header(_) => "h",
        MdEntry::Paragraph(_) => "p",
        MdEntry::Item(_) => "i",
        MdEntry::MultipleLineRef(_) => "r",
        MdEntry::NewLine => "n",
    }
}

#[test]
fn md_parse_sample() {
    let entries = md_parse(MARKDOWN_SAMPLE).unwrap();
    let kinds: Vec<&str> = entries.iter().map(kind).collect();
    assert_eq!(
        kinds.join(""),
        "hnpnhnpnpniiiniiinpnrnpn"
    );
    let texts: Vec<&str> = entries.iter().map(|e| e.text()).collect();
    assert_eq!(texts[0], "An h1 header");
    assert_eq!(texts[12], "the other one");
    let out: Vec<String> = entries.iter().map(|e| e.to_md_str(None).unwrap()).collect();
    assert_eq!(out[0], "# An h1 header\n");
    assert_eq!(out[4], "An h1 header\n==\n");
    assert_eq!(out[1], "");
}

#[test]
fn md_parse_failures() {
    assert_eq!(md_try_parse("abc").err(), Some("c"));
    assert_eq!(md_try_parse(">\n").err(), Some(">\n"));
    assert_eq!(md_try_parse("# T\nline one\n* item\n").err(), Some("line one\n* item\n"));
    let entries = md_try_parse("\n\n# T\n").unwrap();
    assert_eq!(entries.len(), 3);
    assert!(md_try_parse("").unwrap().is_empty());
}

#[test]
fn markdown_file_names() {
    assert!(is_markdown_file("notes.md"));
    assert!(is_markdown_file(".md"));
    assert!(!is_markdown_file("notes.txt"));
    assert!(!is_markdown_file("md"));
}
