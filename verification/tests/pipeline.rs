use lsr::args::TimeSort;
use lsr::entries::read_entries;
use lsr::entries::DirEntryInfo;
use lsr::entries::EntryTimes;
use lsr::entries::FileKind;
use lsr::list::list_dir;
use lsr::list::render_entry;
use lsr::LsError;

fn entry(name: &str, components: usize) -> DirEntryInfo {
    DirEntryInfo {
        name: name.to_owned(),
        components,
        file_type: None,
        times: None,
    }
}

fn entry_typed(name: &str, components: usize, kind: FileKind) -> DirEntryInfo {
    DirEntryInfo {
        name: name.to_owned(),
        components,
        file_type: Some(kind),
        times: None,
    }
}

fn entry_timed(name: &str, atime: i64, mtime: i64, ctime: i64) -> DirEntryInfo {
    DirEntryInfo {
        name: name.to_owned(),
        components: 2,
        file_type: None,
        times: Some(EntryTimes { atime, mtime, ctime }),
    }
}

fn names(entries: &[DirEntryInfo]) -> Vec<String> {
    entries.iter().map(|e| e.name.clone()).collect()
}

#[test]
fn default_mode_hides_dot_names() {
    let raw = vec![entry("a.txt", 2), entry(".hidden", 2), entry("sub", 2)];
    let selected = read_entries(&raw, false, None, None);
    assert_eq!(names(&selected), vec!["a.txt".to_owned(), "sub".to_owned()]);
}

#[test]
fn almost_all_keeps_dot_names_but_not_self_parent() {
    let raw = vec![
        entry(".", 1),
        entry("..", 1),
        entry(".hidden", 2),
        entry("a.txt", 2),
        entry("sub", 2),
    ];
    let selected = read_entries(&raw, true, None, None);
    assert_eq!(
        names(&selected),
        vec![".hidden".to_owned(), "a.txt".to_owned(), "sub".to_owned()]
    );
}

#[test]
fn limit_truncates_after_hidden_filter() {
    let raw = vec![entry(".hidden", 2), entry("a", 2), entry("b", 2), entry("c", 2)];
    let selected = read_entries(&raw, false, None, Some(2));
    assert_eq!(names(&selected), vec!["a".to_owned(), "b".to_owned()]);
    let none = read_entries(&raw, false, None, Some(0));
    assert!(none.is_empty());
}

#[test]
fn limit_applies_before_depth_filter() {
    // The limit keeps the first two survivors; the depth filter then drops
    // one of them, so fewer than two entries come out.
    let raw = vec![entry("deep", 5), entry("a", 2), entry("b", 2)];
    let selected = read_entries(&raw, false, Some(3), Some(2));
    assert_eq!(names(&selected), vec!["a".to_owned()]);
}

#[test]
fn max_depth_drops_deep_paths_keeps_order() {
    let raw = vec![entry("a", 2), entry("deep", 7), entry("b", 3), entry("c", 4)];
    let selected = read_entries(&raw, false, Some(3), None);
    assert_eq!(names(&selected), vec!["a".to_owned(), "b".to_owned()]);
}

#[test]
fn render_plain_name_only() {
    let e = entry("a.txt", 2);
    let line = render_entry(&e, false, None, false).unwrap();
    assert_eq!(line, "a.txt");
}

#[test]
fn classify_markers() {
    let dir = entry_typed("sub", 2, FileKind::Dir);
    let file = entry_typed("a.txt", 2, FileKind::Regular);
    let link = entry_typed("l", 2, FileKind::Symlink);
    let other = entry_typed("dev", 2, FileKind::Other);
    assert_eq!(render_entry(&dir, false, None, true).unwrap(), "sub/");
    assert_eq!(render_entry(&file, false, None, true).unwrap(), "a.txt ");
    assert_eq!(render_entry(&link, false, None, true).unwrap(), "l@");
    assert_eq!(render_entry(&other, false, None, true).unwrap(), "dev ");
}

#[test]
fn classify_without_file_type_is_io_error() {
    let e = entry("a.txt", 2);
    assert_eq!(render_entry(&e, false, None, true), Err(LsError::Io));
}

#[test]
fn time_field_without_times_is_io_error() {
    let e = entry("a.txt", 2);
    assert_eq!(
        render_entry(&e, false, Some(TimeSort::Mtime), false),
        Err(LsError::Io)
    );
}

#[test]
fn mtime_field_formats_utc() {
    // 1431648000 is 2015-05-15 00:00:00 UTC.
    let e = entry_timed("a.txt", 0, 1431648000, 0);
    let line = render_entry(&e, false, Some(TimeSort::Mtime), false).unwrap();
    assert_eq!(line, "a.txt  May 15 00:00");
}

#[test]
fn time_kind_selects_the_timestamp() {
    // Epoch is Jan 1; one day in is Jan 2; eleven days in is Jan 12, showing
    // the space-padded single-digit day against the two-digit day.
    let e = entry_timed("f", 0, 86400, 86400 * 11);
    assert_eq!(
        render_entry(&e, false, Some(TimeSort::Atime), false).unwrap(),
        "f  Jan  1 00:00"
    );
    assert_eq!(
        render_entry(&e, false, Some(TimeSort::Mtime), false).unwrap(),
        "f  Jan  2 00:00"
    );
    assert_eq!(
        render_entry(&e, false, Some(TimeSort::Ctime), false).unwrap(),
        "f  Jan 12 00:00"
    );
}

#[test]
fn list_dir_renders_all_lines_in_order() {
    let raw = vec![
        entry_typed("sub", 2, FileKind::Dir),
        entry_typed("a.txt", 2, FileKind::Regular),
    ];
    let lines = list_dir(&raw, false, None, true).unwrap();
    assert_eq!(lines, vec!["sub/".to_owned(), "a.txt ".to_owned()]);
}

#[test]
fn list_dir_stops_at_first_missing_metadata() {
    let raw = vec![entry_typed("ok", 2, FileKind::Regular), entry("bad", 2)];
    assert_eq!(list_dir(&raw, false, None, true), Err(LsError::Io));
}

#[test]
fn scenario_no_flags() {
    let raw = vec![entry("a.txt", 2), entry(".hidden", 2), entry("sub", 2)];
    let selected = read_entries(&raw, false, None, None);
    let lines = list_dir(&selected, false, None, false).unwrap();
    assert_eq!(lines, vec!["a.txt".to_owned(), "sub".to_owned()]);
}

#[test]
fn scenario_almost_all() {
    let raw = vec![entry("a.txt", 2), entry(".hidden", 2), entry("sub", 2)];
    let selected = read_entries(&raw, true, None, None);
    let lines = list_dir(&selected, false, None, false).unwrap();
    assert_eq!(
        lines,
        vec!["a.txt".to_owned(), ".hidden".to_owned(), "sub".to_owned()]
    );
}

#[test]
fn scenario_classify() {
    let raw = vec![
        entry_typed("a.txt", 2, FileKind::Regular),
        entry_typed("sub", 2, FileKind::Dir),
    ];
    let selected = read_entries(&raw, false, None, None);
    let lines = list_dir(&selected, false, None, true).unwrap();
    assert_eq!(lines, vec!["a.txt ".to_owned(), "sub/".to_owned()]);
}

#[test]
fn scenario_limit_one() {
    let raw = vec![entry("a.txt", 2), entry("b.txt", 2), entry("sub", 2)];
    let selected = read_entries(&raw, false, None, Some(1));
    let lines = list_dir(&selected, false, None, false).unwrap();
    assert_eq!(lines.len(), 1);
    assert_eq!(lines, vec!["a.txt".to_owned()]);
}

#[test]
fn scenario_mtime() {
    let raw = vec![entry_timed("a.txt", 5, 0, 7)];
    let selected = read_entries(&raw, false, None, None);
    let lines = list_dir(&selected, false, Some(TimeSort::Mtime), false).unwrap();
    assert_eq!(lines, vec!["a.txt  Jan  1 00:00".to_owned()]);
}

#[test]
fn test_ls() {
    // A listing like the project's own directory, with no flags: dot names
    // are hidden and the rest is listed as it came.
    let raw = vec![
        entry(".git", 2),
        entry(".gitignore", 2),
        entry("Cargo.toml", 2),
        entry("src", 2),
    ];
    let selected = read_entries(&raw, false, None, None);
    let lines = list_dir(&selected, false, None, false).unwrap();
    assert!(lines.contains(&"Cargo.toml".to_owned()));
    assert!(!lines.contains(&".git".to_owned()));
}

#[test]
fn all_flag_does_not_affect_selection() {
    // Selection consults only the almost-all flag: the all flag is parsed but
    // changes nothing, so dot names stay hidden even when it is set.
    let raw = vec![
        entry(".git", 2),
        entry("Cargo.toml", 2),
        entry("src", 2),
    ];
    let selected = read_entries(&raw, false, None, None);
    let lines = list_dir(&selected, false, None, false).unwrap();
    assert!(lines.contains(&"Cargo.toml".to_owned()));
    assert!(!lines.contains(&".git".to_owned()));
}

#[test]
fn test_almost_all() {
    let raw = vec![
        entry(".", 1),
        entry("..", 1),
        entry(".gitignore", 2),
        entry("Cargo.toml", 2),
    ];
    let selected = read_entries(&raw, true, None, None);
    let lines = list_dir(&selected, false, None, false).unwrap();
    assert!(lines.contains(&".gitignore".to_owned()));
    assert!(!lines.contains(&".".to_owned()));
    assert!(!lines.contains(&"..".to_owned()));
}
