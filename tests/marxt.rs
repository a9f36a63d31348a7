use marxt::{chars_of, is_blank, mark_up, split_lines, MarxtResource, Parsed, Probe, RuleTable, NORMAL};

fn lines_of(text: &[u8]) -> Vec<String> {
    split_lines(&text.to_vec())
}

fn strings(v: &[&str]) -> Vec<String> {
    v.iter().map(|s| s.to_string()).collect()
}

fn file(text: &str) -> MarxtResource {
    MarxtResource::from(Probe::File(Some(text.as_bytes().to_vec())))
}

fn markdown_line(line: &str) -> Parsed {
    mark_up(line.to_string(), &RuleTable::markdown())
}

#[test]
fn directory_resolves_to_its_entries() {
    let probe = Probe::Directory(Some(vec![
        Some("docs/b.md".to_string()),
        None,
        Some("docs/a.txt".to_string()),
        Some("docs/sub".to_string()),
    ]));
    let r = MarxtResource::from(probe);
    assert_eq!(r, MarxtResource::Dir(strings(&["docs/b.md", "docs/a.txt", "docs/sub"])));
}

#[test]
fn empty_directory_resolves_to_no_entries() {
    let r = MarxtResource::from(Probe::Directory(Some(vec![])));
    assert_eq!(r, MarxtResource::Dir(vec![]));
    assert!(r.list_text().is_empty());
}

#[test]
fn file_resolves_to_its_lines() {
    assert_eq!(file("# Title\nbody\nend"), MarxtResource::File(strings(&["# Title", "body", "end"])));
}

#[test]
fn line_count_follows_line_breaks() {
    assert_eq!(lines_of(b"a\nb"), strings(&["a", "b"]));
    assert_eq!(lines_of(b"a\nb\n"), strings(&["a", "b"]));
    assert_eq!(lines_of(b"a\n\nb"), strings(&["a", "", "b"]));
    assert_eq!(lines_of(b"\n"), strings(&[""]));
    assert_eq!(lines_of(b"\n\n"), strings(&["", ""]));
    assert_eq!(lines_of(b""), Vec::<String>::new());
}

#[test]
fn carriage_return_before_line_feed_is_dropped() {
    assert_eq!(lines_of(b"a\r\nb\r\n"), strings(&["a", "b"]));
    assert_eq!(lines_of(b"a\r"), strings(&["a\r"]));
    assert_eq!(lines_of(b"a\r\r\n"), strings(&["a\r"]));
}

#[test]
fn malformed_line_is_skipped() {
    assert_eq!(lines_of(b"first\n\xff\xfe\nlast"), strings(&["first", "last"]));
    assert_eq!(lines_of(b"ok\n\xc3"), strings(&["ok"]));
}

#[test]
fn multibyte_lines_are_decoded() {
    assert_eq!(lines_of("é\n日本\n".as_bytes()), strings(&["é", "日本"]));
}

#[test]
fn nonexistent_path_is_unprocessable() {
    assert_eq!(MarxtResource::from(Probe::Missing), MarxtResource::Unprocessable);
}

#[test]
fn unreadable_paths_are_unprocessable() {
    assert_eq!(MarxtResource::from(Probe::Special), MarxtResource::Unprocessable);
    assert_eq!(MarxtResource::from(Probe::File(None)), MarxtResource::Unprocessable);
    assert_eq!(MarxtResource::from(Probe::Directory(None)), MarxtResource::Unprocessable);
    assert!(MarxtResource::Unprocessable.list_text().is_empty());
}

#[test]
fn resolving_twice_gives_equal_results() {
    let content = b"## A\ntext\n".to_vec();
    let first = MarxtResource::from(Probe::File(Some(content.clone())));
    let second = MarxtResource::from(Probe::File(Some(content)));
    assert_eq!(first, second);
    let entries = vec![Some("x".to_string()), None];
    let d1 = MarxtResource::from(Probe::Directory(Some(entries.clone())));
    let d2 = MarxtResource::from(Probe::Directory(Some(entries)));
    assert_eq!(d1, d2);
}

#[test]
fn list_text_gives_lines_and_entries_in_order() {
    assert_eq!(file("one\ntwo").list_text(), strings(&["one", "two"]));
    let d = MarxtResource::Dir(strings(&["z", "a"]));
    assert_eq!(d.list_text(), strings(&["z", "a"]));
}

#[test]
fn directory_entries_are_never_marked_up() {
    let table = RuleTable::markdown();
    let d = MarxtResource::Dir(vec![]);
    assert_eq!(d.parse("# dir".to_string(), &table), Parsed::new("# dir".to_string(), NORMAL));
    assert_eq!(d.parse("".to_string(), &table), Parsed::new("".to_string(), NORMAL));
    let u = MarxtResource::Unprocessable;
    assert_eq!(u.parse("## x".to_string(), &table), Parsed::new("## x".to_string(), NORMAL));
}

#[test]
fn empty_line_is_normal() {
    let f = file("");
    assert_eq!(f.parse("".to_string(), &RuleTable::markdown()), Parsed::new("".to_string(), NORMAL));
    assert_eq!(f.parse("".to_string(), &RuleTable::new()), Parsed::new("".to_string(), NORMAL));
    assert_eq!(markdown_line("   \t"), Parsed::new("   \t".to_string(), NORMAL));
}

#[test]
fn single_marker_gives_top_level() {
    let f = file("# Title");
    assert_eq!(f.parse("# Title".to_string(), &RuleTable::markdown()), Parsed::new(" Title".to_string(), 5));
}

#[test]
fn second_level_marker() {
    assert_eq!(markdown_line("## A # B"), Parsed::new(" A # B".to_string(), 4));
}

#[test]
fn every_occurrence_of_marker_is_removed() {
    assert_eq!(markdown_line("# re#peat"), Parsed::new(" repeat".to_string(), 5));
    assert_eq!(markdown_line("## a##b####"), Parsed::new(" ab".to_string(), 4));
}

#[test]
fn six_markers_are_not_a_rule() {
    assert_eq!(markdown_line("###### overflow"), Parsed::new("###### overflow".to_string(), NORMAL));
}

#[test]
fn each_markdown_level() {
    assert_eq!(markdown_line("### c").level, 3);
    assert_eq!(markdown_line("#### d").level, 2);
    assert_eq!(markdown_line("##### e"), Parsed::new(" e".to_string(), 1));
}

#[test]
fn marker_must_be_the_whole_first_token() {
    assert_eq!(markdown_line("#Title"), Parsed::new("#Title".to_string(), NORMAL));
    assert_eq!(markdown_line("Title #"), Parsed::new("Title #".to_string(), NORMAL));
}

#[test]
fn leading_whitespace_before_marker_is_skipped() {
    assert_eq!(markdown_line("  # x"), Parsed::new("   x".to_string(), 5));
    assert_eq!(markdown_line("#\tTab"), Parsed::new("\tTab".to_string(), 5));
    assert_eq!(markdown_line("\u{3000}# wide"), Parsed::new("\u{3000} wide".to_string(), 5));
    assert_eq!(markdown_line("#"), Parsed::new("".to_string(), 5));
}

#[test]
fn custom_rule_table() {
    let mut table = RuleTable::new();
    table.insert("!", 7);
    table.insert("==", 2);
    assert_eq!(mark_up("! alert !".to_string(), &table), Parsed::new(" alert ".to_string(), 7));
    assert_eq!(mark_up("# not here".to_string(), &table), Parsed::new("# not here".to_string(), NORMAL));
    table.insert("!", 9);
    assert_eq!(mark_up("! again".to_string(), &table).level, 9);
}

#[test]
fn rule_lookup() {
    let table = RuleTable::markdown();
    assert_eq!(table.level_of(&vec!['#']), Some(5));
    assert_eq!(table.level_of(&vec!['#', '#', '#', '#', '#']), Some(1));
    assert_eq!(table.level_of(&vec!['#'; 6]), None);
    assert_eq!(RuleTable::new().level_of(&vec!['#']), None);
}

#[test]
fn whitespace_and_characters() {
    assert!(is_blank(' '));
    assert!(is_blank('\n'));
    assert!(is_blank('\u{a0}'));
    assert!(is_blank('\u{3000}'));
    assert!(!is_blank('#'));
    assert!(!is_blank('\u{200b}'));
    for c in ['a', ' ', '\t', '\u{85}', '\u{2029}', 'é', '\u{180e}'] {
        assert_eq!(is_blank(c), c.is_whitespace());
    }
    assert_eq!(chars_of("a日b"), vec!['a', '日', 'b']);
}

#[test]
fn parsed_new_keeps_its_fields() {
    let p = Parsed::new("x".to_string(), 3);
    assert_eq!(p.line, "x");
    assert_eq!(p.level, 3);
}
