use table_browser::detail::{detail_text, placeholder_text};
use table_browser::item::{contains_id, file_stem, CatalogItem};
use table_browser::layout::{split_footer, split_screen, Region};
use table_browser::screen::{compose_screen, footer_line, key_bindings, list_title};
use table_browser::selection::{position_of_path, SelectionState, SortMode};
use table_browser::text::{capitalize_first_letter, split_lines, str_lex_le, Span, Tone};

fn item(path: &str, name: Option<&str>, modified: u64) -> CatalogItem {
    CatalogItem {
        path: path.to_string(),
        display_name: name.map(|n| n.to_string()),
        game_name: None,
        primary_resource: None,
        secondary_resource: None,
        last_modified: modified,
        description: None,
    }
}

fn texts(line: &[Span]) -> Vec<(String, Tone)> {
    line.iter().map(|s| (s.text.clone(), s.tone)).collect()
}

fn joined(line: &[Span]) -> String {
    line.iter().map(|s| s.text.as_str()).collect()
}

fn paths(state: &SelectionState) -> Vec<String> {
    state.items.iter().map(|i| i.path.clone()).collect()
}

fn three() -> SelectionState {
    SelectionState::new(
        vec![item("/t/a.vpx", None, 30), item("/t/b.vpx", None, 20), item("/t/c.vpx", None, 10)],
        SortMode::ByName,
    )
}

#[test]
fn label_capitalizes_metadata_name_and_dims_stem() {
    let it = item("/tables/mm_v1.2.vpx", Some("medieval madness"), 0);
    assert_eq!(it.display_label(), "Medieval madness mm_v1.2");
    assert_eq!(
        texts(&it.label_line()),
        vec![
            ("Medieval madness".to_string(), Tone::Plain),
            (" ".to_string(), Tone::Plain),
            ("mm_v1.2".to_string(), Tone::Dim),
        ]
    );
}

#[test]
fn label_is_stem_without_metadata_name() {
    let absent = item("/tables/mm_v1.2.vpx", None, 0);
    let empty = item("/tables/mm_v1.2.vpx", Some(""), 0);
    assert_eq!(absent.display_label(), "mm_v1.2");
    assert_eq!(empty.display_label(), "mm_v1.2");
    assert_eq!(texts(&empty.label_line()), vec![("mm_v1.2".to_string(), Tone::Plain)]);
}

#[test]
fn file_stem_drops_directory_and_last_extension() {
    assert_eq!(file_stem("/a/b/archive.tar.gz"), "archive.tar");
    assert_eq!(file_stem("/a/b/plain"), "plain");
    assert_eq!(file_stem("/"), "");
}

#[test]
fn capitalize_uses_full_upper_case_mapping() {
    assert_eq!(capitalize_first_letter("medieval"), "Medieval");
    assert_eq!(capitalize_first_letter("ßa"), "SSa");
    assert_eq!(capitalize_first_letter(""), "");
}

#[test]
fn missing_secondary_resource_gives_one_warning() {
    let mut it = item("/t/mm.vpx", None, 0);
    it.secondary_resource = Some("mm.vpx.rom".to_string());
    let w = it.warnings(&vec![]);
    assert_eq!(w.len(), 1);
    assert!(w[0].contains("mm.vpx.rom"));
    assert_eq!(w[0], "B2S file not found: mm.vpx.rom");
}

#[test]
fn warnings_empty_iff_all_available() {
    let mut it = item("/t/mm.vpx", None, 0);
    assert!(it.warnings(&vec![]).is_empty());
    it.primary_resource = Some("mm".to_string());
    it.secondary_resource = Some("mm.directb2s".to_string());
    let all = vec!["mm".to_string(), "mm.directb2s".to_string()];
    assert!(it.warnings(&all).is_empty());
    let some = vec!["mm.directb2s".to_string()];
    assert_eq!(it.warnings(&some), vec!["Rom not found: mm".to_string()]);
    assert_eq!(
        it.warnings(&vec![]),
        vec!["Rom not found: mm".to_string(), "B2S file not found: mm.directb2s".to_string()]
    );
    assert!(contains_id(&all, &"mm".to_string()));
    assert!(!contains_id(&all, &"m".to_string()));
}

#[test]
fn detail_omits_absent_fields() {
    let it = item("/t/mm.vpx", Some("medieval madness"), 1000);
    let lines = detail_text(&it, &vec![], 1000 + 3600 * 24);
    let joined_lines: Vec<String> = lines.iter().map(|l| joined(l)).collect();
    assert_eq!(
        joined_lines,
        vec![
            "Medieval madness mm".to_string(),
            "".to_string(),
            "Path:          /t/mm.vpx".to_string(),
            "Last Modified: 1 day ago".to_string(),
            "".to_string(),
        ]
    );
    assert_eq!(lines[0][0].tone, Tone::Title);
    assert_eq!(lines[2][0].tone, Tone::Header);
}

#[test]
fn detail_lists_every_present_field_in_order() {
    let mut it = item("/t/mm.vpx", None, 50);
    it.game_name = Some("mm_109c".to_string());
    it.primary_resource = Some("mm_109c".to_string());
    it.secondary_resource = Some("mm.directb2s".to_string());
    it.description = Some("A castle.".to_string());
    let lines = detail_text(&it, &vec!["mm.directb2s".to_string()], 10);
    let joined_lines: Vec<String> = lines.iter().map(|l| joined(l)).collect();
    assert_eq!(
        joined_lines,
        vec![
            "mm".to_string(),
            "".to_string(),
            "⚠️ Rom not found: mm_109c".to_string(),
            "Path:          /t/mm.vpx".to_string(),
            "Game Name:     mm_109c".to_string(),
            "Rom Path:      mm_109c".to_string(),
            "B2S Path:      mm.directb2s".to_string(),
            "Last Modified: now".to_string(),
            "".to_string(),
            "A castle.".to_string(),
        ]
    );
    assert_eq!(lines[2][0].tone, Tone::Warning);
}

#[test]
fn empty_game_name_has_no_line() {
    let mut it = item("/t/mm.vpx", None, 0);
    it.game_name = Some(String::new());
    let lines = detail_text(&it, &vec![], 0);
    assert_eq!(lines.len(), 5);
}

#[test]
fn placeholder_without_selection() {
    let p = placeholder_text();
    assert_eq!(p.len(), 1);
    assert_eq!(texts(&p[0]), vec![("No item selected".to_string(), Tone::Italic)]);
}

#[test]
fn next_wraps_from_last_to_first() {
    let mut s = three();
    s.select_next();
    s.select_next();
    assert_eq!(s.cursor, Some(2));
    s.select_next();
    assert_eq!(s.cursor, Some(0));
}

#[test]
fn previous_wraps_from_first_to_last() {
    let mut s = three();
    s.select_previous();
    assert_eq!(s.cursor, Some(2));
}

#[test]
fn next_then_previous_restores_cursor() {
    let mut s = three();
    for start in 0..3 {
        s.cursor = Some(start);
        s.scroll_offset = 0;
        s.select_next();
        s.select_previous();
        assert_eq!(s.cursor, Some(start));
        s.select_previous();
        s.select_next();
        assert_eq!(s.cursor, Some(start));
    }
}

#[test]
fn full_cycle_of_next_restores_cursor() {
    let mut s = three();
    s.cursor = Some(1);
    for _ in 0..3 {
        s.select_next();
    }
    assert_eq!(s.cursor, Some(1));
}

#[test]
fn navigation_on_empty_list_keeps_no_selection() {
    let mut s = SelectionState::new(vec![], SortMode::ByName);
    assert_eq!(s.cursor, None);
    s.select_next();
    s.select_previous();
    s.toggle_sort();
    assert_eq!(s.cursor, None);
    assert!(s.selected().is_none());
}

#[test]
fn sort_by_name_ignores_case() {
    let s = SelectionState::new(
        vec![item("/t/b.vpx", None, 0), item("/t/A.vpx", None, 0), item("/t/c.vpx", Some("apple"), 0)],
        SortMode::ByName,
    );
    assert_eq!(paths(&s), vec!["/t/A.vpx", "/t/c.vpx", "/t/b.vpx"]);
}

#[test]
fn sort_by_last_modified_newest_first_and_stable() {
    let s = SelectionState::new(
        vec![item("/t/a.vpx", None, 5), item("/t/b.vpx", None, 9), item("/t/c.vpx", None, 5), item("/t/d.vpx", None, 7)],
        SortMode::ByLastModified,
    );
    assert_eq!(paths(&s), vec!["/t/b.vpx", "/t/d.vpx", "/t/a.vpx", "/t/c.vpx"]);
}

#[test]
fn resort_keeps_selected_item() {
    let mut s = three();
    s.cursor = Some(0);
    assert_eq!(s.selected().unwrap().path, "/t/a.vpx");
    s.set_sort_mode(SortMode::ByLastModified);
    assert_eq!(s.selected().unwrap().path, "/t/a.vpx");
    s.cursor = Some(2);
    s.set_sort_mode(SortMode::ByName);
    assert_eq!(s.cursor, Some(2));
    assert_eq!(s.selected().unwrap().path, "/t/c.vpx");
    let mut t = SelectionState::new(
        vec![item("/t/a.vpx", None, 1), item("/t/b.vpx", None, 2), item("/t/c.vpx", None, 3)],
        SortMode::ByName,
    );
    t.select_next();
    t.toggle_sort();
    assert_eq!(t.sort_mode, SortMode::ByLastModified);
    assert_eq!(paths(&t), vec!["/t/c.vpx", "/t/b.vpx", "/t/a.vpx"]);
    assert_eq!(t.cursor, Some(1));
    assert_eq!(t.selected().unwrap().path, "/t/b.vpx");
}

#[test]
fn replace_items_follows_path_or_falls_back() {
    let mut s = three();
    s.select_next();
    s.replace_items(vec![item("/t/z.vpx", None, 0), item("/t/b.vpx", None, 0)]);
    assert_eq!(paths(&s), vec!["/t/b.vpx", "/t/z.vpx"]);
    assert_eq!(s.cursor, Some(0));
    s.select_next();
    s.replace_items(vec![item("/t/q.vpx", None, 0), item("/t/p.vpx", None, 0)]);
    assert_eq!(s.cursor, Some(0));
    s.replace_items(vec![]);
    assert_eq!(s.cursor, None);
    assert_eq!(position_of_path(&vec![item("/x", None, 0)], &"/y".to_string()), None);
}

#[test]
fn scroll_sync_scrolls_minimally() {
    let mut s = SelectionState::new((0..10).map(|i| item(&format!("/t/{}.vpx", i), None, 0)).collect(), SortMode::ByName);
    s.cursor = Some(7);
    s.scroll_sync(3);
    assert_eq!(s.scroll_offset, 5);
    s.scroll_sync(3);
    assert_eq!(s.scroll_offset, 5);
    s.select_previous();
    s.select_previous();
    s.scroll_sync(3);
    assert_eq!(s.scroll_offset, 5);
    s.select_previous();
    assert_eq!(s.scroll_offset, 4);
    s.scroll_sync(0);
    assert_eq!(s.scroll_offset, 4);
}

#[test]
fn footer_has_no_trailing_separator() {
    let line = footer_line(&key_bindings());
    assert_eq!(joined(&line), "[↑/↓ → select] [s → sort] [q → quit]");
    assert_eq!(line.last().unwrap().text, "]");
    assert_eq!(line[1].tone, Tone::KeyLabel);
}

#[test]
fn list_title_names_order() {
    assert_eq!(joined(&list_title(SortMode::ByName)), "Tables (Alphabetical) ");
    assert_eq!(joined(&list_title(SortMode::ByLastModified)), "Tables (Last Modified) ");
}

#[test]
fn screen_regions_leave_margin_and_footer_row() {
    let r = split_screen(Region { x: 0, y: 0, width: 100, height: 30 });
    assert_eq!(r.footer, Region { x: 1, y: 28, width: 98, height: 1 });
    assert_eq!(r.list.x, 1);
    assert_eq!(r.list.y, 1);
    assert_eq!(r.list.height, 27);
    assert_eq!(r.detail.x, r.list.x + r.list.width);
    assert_eq!(r.list.width + r.detail.width, 98);
    assert!(r.list.width < r.detail.width);
    let f = split_footer(Region { x: 0, y: 0, width: 50, height: 3 });
    assert_eq!(f.height, 1);
    assert_eq!(f.y, 2);
}

#[test]
fn compose_screen_fills_every_part() {
    let mut s = three();
    s.select_next();
    let screen = compose_screen(&s, &vec![], 100, Region { x: 0, y: 0, width: 80, height: 24 });
    assert_eq!(screen.rows.len(), 3);
    assert_eq!(joined(&screen.rows[1]), "b");
    assert_eq!(joined(&screen.detail[0]), "b");
    assert_eq!(joined(&screen.list_title), "Tables (Alphabetical) ");
    let empty = SelectionState::new(vec![], SortMode::ByName);
    let screen = compose_screen(&empty, &vec![], 100, Region { x: 0, y: 0, width: 80, height: 24 });
    assert_eq!(joined(&screen.detail[0]), "No item selected");
}

#[test]
fn lexicographic_order_by_code_point() {
    assert!(str_lex_le("abc", "abd"));
    assert!(str_lex_le("ab", "abc"));
    assert!(!str_lex_le("abc", "ab"));
    assert!(str_lex_le("", ""));
    assert!(!str_lex_le("b", "a"));
}

#[test]
fn description_is_shown_line_by_line() {
    let mut it = item("/t/mm.vpx", None, 0);
    it.description = Some("first\r\nsecond\n\nfourth\n".to_string());
    let lines = detail_text(&it, &vec![], 0);
    let tail: Vec<String> = lines[5..].iter().map(|l| joined(l)).collect();
    assert_eq!(tail, vec!["first", "second", "", "fourth"]);
    it.description = Some(String::new());
    let lines = detail_text(&it, &vec![], 0);
    assert_eq!(lines.len(), 6);
    assert_eq!(joined(&lines[5]), "");
}

#[test]
fn split_lines_matches_str_lines() {
    for s in ["", "a", "a\nb", "a\r\nb\n", "\n", "\n\n", "x\r", "a\rb\n"] {
        let expected: Vec<String> = s.lines().map(|l| l.to_string()).collect();
        assert_eq!(split_lines(s), expected, "{:?}", s);
    }
}
