# translib

A markdown reader and the request/reply logic of a text translation
service, verified with Verus. The `jtranslate` program in `app/` reads a
text or a file, asks the service for its translation into one or more
languages, and prints the result; for a markdown file it translates
element by element and writes the markdown back.

## Layout

- `src/md/grammar.rs` — the markdown grammar: one spec function per rule,
  executable matchers proved to agree with them, and public functions that
  return what a rule matches at the start of a string.
- `src/md/{header,paragraph,item,reference,bold,italic,normal}.rs` — the
  elements, their `parse` functions (exact contracts over the grammar) and
  their markdown (`MdOperation::to_md_str`).
- `src/md/mod.rs` — `md_parse`, which reads a document into elements.
- `src/key_info.rs` — the service key: where the key file is, and when a
  key is usable.
- `src/translate.rs` — the request to send, and how a JSON reply is read.
- `src/text.rs` — white space, trimming, splitting, string building.
- `app/` — command line, files, environment, HTTP and JSON decoding.

## The grammar

A line ends at `\n`.

| rule | form |
|------|------|
| `words` | `word (" " word)*`, `word` = ASCII letters and digits |
| `MARK` | one ASCII punctuation character |
| `headings1` | `#`+, a space, at least one character, line end |
| `headings2` | a line not starting with white space, then `==`+ or `--`+ (an even number of characters), line end |
| `number_item` | spaces, digits, `.`, a space, text, line end |
| `non_number_item` | spaces, `*`, `-` or `+`, a space, text, line end |
| `normal` | not an item; the rest of the line, not empty |
| `paragraph` | lines (`normal`, not a quoted line) joined by single line ends, then a blank line, a last line end, or the end of the text |
| `single_ref` | spaces, `>`, the rest of the line, line end |
| `linebreak` | `<br>`, or two spaces and a line end |
| `bold` | `**x**` or `__x__`, `x` on one line and not empty |
| `italic` | `*x*` or `_x_`, `x` on one line and not empty |

Proved laws include: a header and a block quote read from markdown, written
back, read back as themselves; a paragraph's text is one line; a header,
list item or block quote that starts a document takes at least one
character of it.
