use lscolors::{LsColors, Style};
use std::path::Path;
use update_mapped::annotate::{
    annotate_line, annotate_lines, observe, render, render_colored, render_missing, render_plain,
    resolve, Probe, LINENUM_ON, NOT_FOUND_ON, STYLE_OFF,
};
use update_mapped::history::{HistoryEntry, HistoryTable};
use update_mapped::target::TargetDir;

const MISSING: &str = "/no/such/dir-6f1c/no-such-file-91ab";

fn table_of(lines: &[&str]) -> HistoryTable {
    let lines: Vec<String> = lines.iter().map(|l| l.to_string()).collect();
    HistoryTable::from_lines(&lines)
}

fn on_disk() -> Probe {
    Probe { on_disk: true, painted: Vec::new() }
}

fn painted(parts: &[&str]) -> Probe {
    Probe { on_disk: true, painted: parts.iter().map(|p| p.to_string()).collect() }
}

fn not_on_disk(parts: &[&str]) -> Probe {
    Probe { on_disk: false, painted: parts.iter().map(|p| p.to_string()).collect() }
}

fn orange(text: &str) -> String {
    format!("\x1b[38;2;255;165;0m{}\x1b[0m", text)
}

/// The painted path as the `lscolors` and `nu_ansi_term` crates give it, called directly.
fn painted_by_the_crates(colors: &LsColors, path: &str) -> String {
    let mut out = String::new();
    for (component, style) in colors.style_for_path_components(Path::new(path)) {
        let ansi = style.map(Style::to_nu_ansi_term_style).unwrap_or_default();
        out.push_str(&ansi.paint(component.to_string_lossy()).to_string());
    }
    out
}

fn file_in(dir: &tempfile::TempDir, suffix: &str) -> tempfile::NamedTempFile {
    tempfile::Builder::new().prefix("entry").suffix(suffix).tempfile_in(dir.path()).unwrap()
}

fn text_of(path: &Path) -> String {
    path.to_str().unwrap().to_string()
}

#[test]
fn escape_sequences() {
    assert_eq!(NOT_FOUND_ON, "\u{1b}[38;2;255;165;0m");
    assert_eq!(LINENUM_ON, "\u{1b}[38;2;90;90;90m");
    assert_eq!(STYLE_OFF, "\u{1b}[0m");
}

#[test]
fn resolve_trims_and_keeps_the_path_for_lookup() {
    let dir = TargetDir::new("/a");
    let c = resolve(&dir, "  /a/b/c.txt \n").unwrap();
    assert_eq!(c.path, "/a/b/c.txt");
    assert_eq!(c.display, "b/c.txt");
    assert!(resolve(&dir, "/c/d").is_none());
    assert!(resolve(&dir, "  ").is_none());
}

#[test]
fn resolve_without_target_shows_the_path_whole() {
    let dir = TargetDir::new("");
    let c = resolve(&dir, "\t/a/b\t").unwrap();
    assert_eq!(c.path, "/a/b");
    assert_eq!(c.display, "/a/b");
    let c = resolve(&dir, "").unwrap();
    assert_eq!(c.path, "");
    assert_eq!(c.display, "");
}

#[test]
fn render_missing_is_orange() {
    assert_eq!(render_missing("b/c.txt"), "\x1b[38;2;255;165;0mb/c.txt\x1b[0m");
    assert_eq!(render_missing(""), "\x1b[38;2;255;165;0m\x1b[0m");
}

#[test]
fn render_plain_examples() {
    let five = "5".to_string();
    assert_eq!(render_plain("/a/b", Some(&five)), "/a/b\t5");
    assert_eq!(render_plain("/a/b", None), "/a/b");
    assert_eq!(render_plain("b", Some(&"12\t3".to_string())), "b\t12\t3");
    assert_eq!(render_plain("b", Some(&String::new())), "b\t");
}

#[test]
fn render_colored_puts_the_components_together_in_order() {
    let painted = vec!["\x1b[1;34msrc/\x1b[0m".to_string(), "main.rs".to_string()];
    assert_eq!(render_colored(&painted, None), "\x1b[1;34msrc/\x1b[0mmain.rs");
    assert_eq!(
        render_colored(&painted, Some(&"12".to_string())),
        "\x1b[1;34msrc/\x1b[0mmain.rs\t\x1b[38;2;90;90;90m12\x1b[0m"
    );
    assert_eq!(render_colored(&Vec::new(), None), "");
    assert_eq!(
        render_colored(&Vec::new(), Some(&"1".to_string())),
        "\t\x1b[38;2;90;90;90m1\x1b[0m"
    );
    assert_eq!(
        render_colored(&vec!["a".to_string(), "b".to_string(), "c".to_string()], None),
        "abc"
    );
}

#[test]
fn round_trip_identity() {
    let table = table_of(&["/a/b\t5"]);
    let dir = TargetDir::new("");
    let c = resolve(&dir, "/a/b").unwrap();
    assert_eq!(render(&table, false, &c, &on_disk()), "/a/b\t5");
}

#[test]
fn round_trip_identity_on_disk() {
    let tmp = tempfile::tempdir().unwrap();
    let file = file_in(&tmp, ".txt");
    let path = text_of(file.path());
    let history = format!("{}\t5", path);
    let table = table_of(&[history.as_str()]);
    let out = annotate_line(&table, &LsColors::empty(), &TargetDir::new(""), false, &path);
    assert_eq!(out, Some(history));
}

#[test]
fn directory_filter_on_disk() {
    let tmp = tempfile::tempdir().unwrap();
    let file = file_in(&tmp, ".txt");
    let path = text_of(file.path());
    let name = file.path().file_name().unwrap().to_str().unwrap().to_string();
    let dir = TargetDir::new(tmp.path().to_str().unwrap());
    let colors = LsColors::empty();

    let empty = HistoryTable::new();
    assert_eq!(annotate_line(&empty, &colors, &dir, false, &path), Some(name.clone()));

    let history = format!("{}\t7", path);
    let table = table_of(&[history.as_str()]);
    assert_eq!(
        annotate_line(&table, &colors, &dir, false, &path),
        Some(format!("{}\t7", name))
    );
    assert_eq!(annotate_line(&table, &colors, &dir, false, "/c/d"), None);
    assert_eq!(annotate_line(&table, &colors, &dir, true, "/c/d"), None);
}

#[test]
fn directory_filter_pure() {
    let table = table_of(&["/a/b\t5"]);
    let dir = TargetDir::new("/a/");
    let found = resolve(&dir, "/a/b").unwrap();
    assert_eq!(render(&table, false, &found, &on_disk()), "b\t5");
    let unknown = resolve(&dir, "/a/c").unwrap();
    assert_eq!(render(&table, false, &unknown, &on_disk()), "c");
    assert!(resolve(&dir, "/c/d").is_none());
}

#[test]
fn lookup_uses_the_unstripped_path() {
    let table = table_of(&["b\t1", "/a/b\t5"]);
    let dir = TargetDir::new("/a/");
    let c = resolve(&dir, "/a/b").unwrap();
    assert_eq!(render(&table, false, &c, &on_disk()), "b\t5");
}

#[test]
fn root_target_neither_filters_nor_strips() {
    let tmp = tempfile::tempdir().unwrap();
    let file = file_in(&tmp, ".txt");
    let path = text_of(file.path());
    let history = format!("{}\t3", path);
    let table = table_of(&[history.as_str()]);
    let colors = LsColors::empty();
    let root = TargetDir::new("/");
    let none = TargetDir::new("");
    assert_eq!(annotate_line(&table, &colors, &root, false, &path), Some(history.clone()));
    assert_eq!(
        annotate_line(&table, &colors, &root, false, &path),
        annotate_line(&table, &colors, &none, false, &path)
    );
    assert_eq!(annotate_line(&table, &colors, &root, false, MISSING), Some(orange(MISSING)));
    assert_eq!(annotate_line(&table, &colors, &root, false, "/"), Some("/".to_string()));
}

#[test]
fn not_found_precedence() {
    let history = format!("{}\t5", MISSING);
    let table = table_of(&[history.as_str()]);
    let empty = HistoryTable::new();
    let colors = LsColors::default();
    let dir = TargetDir::new("");
    let expected = Some(orange(MISSING));
    assert_eq!(annotate_line(&table, &colors, &dir, false, MISSING), expected);
    assert_eq!(annotate_line(&table, &colors, &dir, true, MISSING), expected);
    assert_eq!(annotate_line(&empty, &colors, &dir, false, MISSING), expected);
    assert_eq!(annotate_line(&empty, &colors, &dir, true, MISSING), expected);
}

#[test]
fn not_found_shows_the_display_path() {
    let history = format!("{}\t5", MISSING);
    let table = table_of(&[history.as_str()]);
    let dir = TargetDir::new("/no/such/dir-6f1c");
    assert_eq!(
        annotate_line(&table, &LsColors::default(), &dir, false, MISSING),
        Some(orange("no-such-file-91ab"))
    );
}

#[test]
fn not_found_precedence_pure() {
    let table = table_of(&["/a/b\t5"]);
    let c = resolve(&TargetDir::new("/a"), "/a/b").unwrap();
    let probe = not_on_disk(&["painted"]);
    assert_eq!(render(&table, false, &c, &probe), orange("b"));
    assert_eq!(render(&table, true, &c, &probe), orange("b"));
    assert_eq!(render(&HistoryTable::new(), true, &c, &probe), orange("b"));
    assert_eq!(render(&HistoryTable::new(), false, &c, &not_on_disk(&[])), orange("b"));
}

#[test]
fn input_line_is_trimmed() {
    let tmp = tempfile::tempdir().unwrap();
    let file = file_in(&tmp, ".txt");
    let path = text_of(file.path());
    let history = format!("{}\t5", path);
    let table = table_of(&[history.as_str()]);
    let line = format!("  {}\t\r\n", path);
    let out = annotate_line(&table, &LsColors::empty(), &TargetDir::new(""), false, &line);
    assert_eq!(out, Some(history));
}

#[test]
fn order_preservation() {
    let tmp = tempfile::tempdir().unwrap();
    let first = file_in(&tmp, ".a");
    let second = file_in(&tmp, ".b");
    let third = file_in(&tmp, ".c");
    let paths = vec![text_of(third.path()), text_of(first.path()), MISSING.to_string(), text_of(second.path())];
    let history = format!("{}\t42", paths[1]);
    let table = table_of(&[history.as_str()]);
    let out = annotate_lines(&table, &LsColors::empty(), &TargetDir::new(""), false, &paths);
    assert_eq!(out, vec![paths[0].clone(), history, orange(MISSING), paths[3].clone()]);
}

#[test]
fn filtered_lines_leave_the_order_of_the_others() {
    let tmp = tempfile::tempdir().unwrap();
    let first = file_in(&tmp, ".a");
    let second = file_in(&tmp, ".b");
    let name = |f: &tempfile::NamedTempFile| f.path().file_name().unwrap().to_str().unwrap().to_string();
    let lines = vec![
        "/c/d".to_string(),
        text_of(second.path()),
        "/elsewhere".to_string(),
        text_of(first.path()),
        "".to_string(),
    ];
    let dir = TargetDir::new(tmp.path().to_str().unwrap());
    let out = annotate_lines(&HistoryTable::new(), &LsColors::empty(), &dir, false, &lines);
    assert_eq!(out, vec![name(&second), name(&first)]);
}

#[test]
fn no_lines_no_output() {
    let out = annotate_lines(
        &HistoryTable::new(),
        &LsColors::empty(),
        &TargetDir::new(""),
        true,
        &Vec::new(),
    );
    assert!(out.is_empty());
}

#[test]
fn empty_history_shows_existing_paths_bare() {
    let tmp = tempfile::tempdir().unwrap();
    let file = file_in(&tmp, ".txt");
    let path = text_of(file.path());
    let loaded = HistoryTable::from_lines(&Vec::new());
    let fresh = HistoryTable::new();
    let colors = LsColors::empty();
    let dir = TargetDir::new("");
    assert_eq!(annotate_line(&loaded, &colors, &dir, false, &path), Some(path.clone()));
    assert_eq!(annotate_line(&fresh, &colors, &dir, false, &path), Some(path.clone()));
    assert_eq!(annotate_line(&fresh, &colors, &dir, true, &path), Some(path.clone()));
}

#[test]
fn colored_line_is_painted_as_the_crates_paint_it() {
    let tmp = tempfile::tempdir().unwrap();
    let file = file_in(&tmp, ".rs");
    let path = text_of(file.path());
    let history = format!("{}\t5", path);
    let table = table_of(&[history.as_str()]);
    let dir = TargetDir::new("");
    for colors in [LsColors::default(), LsColors::from_string("*.rs=01;34:di=32"), LsColors::empty()] {
        let painted = painted_by_the_crates(&colors, &path);
        assert_eq!(
            annotate_line(&table, &colors, &dir, true, &path),
            Some(format!("{}\t\x1b[38;2;90;90;90m5\x1b[0m", painted))
        );
        assert_eq!(annotate_line(&HistoryTable::new(), &colors, &dir, true, &path), Some(painted));
    }
}

#[test]
fn colored_line_with_a_rule_for_the_suffix() {
    let tmp = tempfile::tempdir().unwrap();
    let file = file_in(&tmp, ".rs");
    let path = text_of(file.path());
    let name = file.path().file_name().unwrap().to_str().unwrap().to_string();
    let history = format!("{}\t5", path);
    let table = table_of(&[history.as_str()]);
    let dir = TargetDir::new(tmp.path().to_str().unwrap());
    let colors = LsColors::from_string("*.rs=01;34");
    assert_eq!(
        annotate_line(&table, &colors, &dir, true, &path),
        Some(format!("\x1b[1;34m{}\x1b[0m\t\x1b[38;2;90;90;90m5\x1b[0m", name))
    );
    assert_eq!(
        annotate_line(&HistoryTable::new(), &colors, &dir, true, &path),
        Some(format!("\x1b[1;34m{}\x1b[0m", name))
    );
    assert_eq!(
        annotate_line(&table, &colors, &dir, false, &path),
        Some(format!("{}\t5", name))
    );
}

#[test]
fn colored_line_paints_each_component() {
    let tmp = tempfile::tempdir().unwrap();
    let file = file_in(&tmp, ".rs");
    let path = text_of(file.path());
    let name = file.path().file_name().unwrap().to_str().unwrap().to_string();
    let colors = LsColors::from_string("di=01;34:*.rs=32");
    let history = format!("{}\t1", path);
    let table = table_of(&[history.as_str()]);
    let out = annotate_line(&table, &colors, &TargetDir::new("/"), true, &path).unwrap();
    let tail = "\t\x1b[38;2;90;90;90m1\x1b[0m";
    assert_eq!(out, format!("{}{}", painted_by_the_crates(&colors, &path), tail));
    assert!(out.ends_with(&format!("\x1b[32m{}\x1b[0m{}", name, tail)));
    assert!(out.len() > path.len() + tail.len());
}

#[test]
fn render_in_colour_reads_the_painted_components() {
    let table = table_of(&["/a/b\t5"]);
    let dir = TargetDir::new("/a");
    let found = resolve(&dir, "/a/b").unwrap();
    let probe = painted(&["<b>"]);
    assert_eq!(render(&table, true, &found, &probe), "<b>\t\x1b[38;2;90;90;90m5\x1b[0m");
    assert_eq!(render(&table, false, &found, &probe), "b\t5");
    let unknown = resolve(&dir, "/a/src/c.rs").unwrap();
    let probe = painted(&["<src/>", "<c.rs>"]);
    assert_eq!(render(&table, true, &unknown, &probe), "<src/><c.rs>");
    assert_eq!(render(&table, false, &unknown, &probe), "src/c.rs");
}

#[test]
fn observe_asks_the_disk() {
    let tmp = tempfile::tempdir().unwrap();
    let file = file_in(&tmp, ".rs");
    let path = text_of(file.path());
    let colors = LsColors::from_string("*.rs=01;34");
    let dir = TargetDir::new(tmp.path().to_str().unwrap());

    let here = resolve(&dir, &path).unwrap();
    let plain = observe(&colors, false, &here);
    assert!(plain.on_disk);
    assert!(plain.painted.is_empty());
    let coloured = observe(&colors, true, &here);
    assert!(coloured.on_disk);
    assert_eq!(coloured.painted, vec![format!("\x1b[1;34m{}\x1b[0m", here.display)]);

    let gone = resolve(&TargetDir::new(""), MISSING).unwrap();
    let probe = observe(&colors, true, &gone);
    assert!(!probe.on_disk);
    assert!(probe.painted.is_empty());
}

#[test]
fn observe_paints_one_piece_for_each_component() {
    let tmp = tempfile::tempdir().unwrap();
    let file = file_in(&tmp, ".rs");
    let path = text_of(file.path());
    assert!(path.starts_with('/') && !path.contains("//") && !path.ends_with('/'));
    let segments: Vec<&str> = path[1..].split('/').collect();
    let mut expected = vec!["/".to_string()];
    for (i, segment) in segments.iter().enumerate() {
        if i + 1 < segments.len() {
            expected.push(format!("{}/", segment));
        } else {
            expected.push(segment.to_string());
        }
    }
    assert!(expected.len() >= 3);

    let here = resolve(&TargetDir::new(""), &path).unwrap();
    let plain = observe(&LsColors::empty(), true, &here);
    assert!(plain.on_disk);
    assert_eq!(plain.painted, expected);

    let coloured = observe(&LsColors::from_string("di=01;34:*.rs=32"), true, &here);
    assert_eq!(coloured.painted.len(), expected.len());
    for (piece, text) in coloured.painted.iter().zip(expected.iter()) {
        assert!(piece.contains(text.as_str()), "{:?} {:?}", piece, text);
    }
    let last = expected.last().unwrap();
    assert_eq!(coloured.painted.last().unwrap(), &format!("\x1b[32m{}\x1b[0m", last));
}

#[test]
fn observe_paints_the_path_as_shown() {
    let tmp = tempfile::tempdir().unwrap();
    let file = file_in(&tmp, ".rs");
    let path = text_of(file.path());
    let name = file.path().file_name().unwrap().to_str().unwrap().to_string();
    let dir = TargetDir::new(tmp.path().to_str().unwrap());
    let here = resolve(&dir, &path).unwrap();
    let probe = observe(&LsColors::empty(), true, &here);
    assert!(probe.on_disk);
    assert_eq!(probe.painted, vec![name]);
}

#[test]
fn observe_paints_components_not_characters() {
    let colors = LsColors::empty();
    let dir = TargetDir::new("");
    let pieces = |line: &str| observe(&colors, true, &resolve(&dir, line).unwrap()).painted;
    assert_eq!(pieces("/"), vec!["/".to_string()]);
    assert_eq!(pieces("//"), vec!["/".to_string()]);
    assert_eq!(pieces("/./"), vec!["/".to_string()]);
    assert_eq!(pieces("."), vec![".".to_string()]);
    assert_eq!(pieces("./"), vec![".".to_string()]);
    assert_eq!(pieces("/.."), vec!["/".to_string(), "..".to_string()]);
    assert_eq!(pieces("./.."), vec!["./".to_string(), "..".to_string()]);
}

#[test]
fn empty_line_number_is_still_set_off_by_a_tab() {
    let mut table = HistoryTable::new();
    table.insert(HistoryEntry { path: "/a/b".to_string(), linenum: String::new() });
    let c = resolve(&TargetDir::new(""), "/a/b").unwrap();
    assert_eq!(render(&table, false, &c, &on_disk()), "/a/b\t");
    assert_eq!(
        render(&table, true, &c, &painted(&["/a/b"])),
        "/a/b\t\x1b[38;2;90;90;90m\x1b[0m"
    );
}
