use tui_notes::app::{parse_due, relative_label};
use tui_notes::cli::parse_remind_args;
use tui_notes::content::match_in;
use tui_notes::date::Date;
use tui_notes::fs_ops::{ensure_note_ext, sanitize};
use tui_notes::fuzzy::filter;
use tui_notes::md::{bullet, heading_level};
use tui_notes::models::Reminder;
use tui_notes::notes::is_note_file;
use tui_notes::store::ReminderStore;

fn date(y: i32, m: u32, d: u32) -> Date {
    Date { year: y, month: m, day: d }
}

#[test]
fn parse_due_empty_is_none() {
    assert_eq!(parse_due("   "), Ok(None));
}

#[test]
fn parse_due_valid() {
    assert_eq!(parse_due("2026-07-04"), Ok(Some(date(2026, 7, 4))));
}

#[test]
fn parse_due_invalid_reports_value() {
    let err = parse_due("07/04/2026").unwrap_err();
    assert!(err.contains("07/04/2026"));
}

#[test]
fn relative_label_strips_root() {
    let label = relative_label("/notes", "/notes/a/b.md");
    assert_eq!(label, "a/b.md");
}

fn args(parts: &[&str]) -> Vec<String> {
    parts.iter().map(|s| s.to_string()).collect()
}

#[test]
fn joins_words_no_due() {
    let (text, due) = parse_remind_args(&args(&["buy", "milk"])).unwrap();
    assert_eq!(text, "buy milk");
    assert!(due.is_none());
}

#[test]
fn parses_due_flag() {
    let (text, due) = parse_remind_args(&args(&["pay", "--due", "2026-07-10"])).unwrap();
    assert_eq!(text, "pay");
    assert_eq!(due, Some(date(2026, 7, 10)));
}

#[test]
fn empty_text_errors() {
    assert!(parse_remind_args(&args(&["--due", "2026-07-10"])).is_err());
}

#[test]
fn invalid_due_errors() {
    assert!(parse_remind_args(&args(&["x", "--due", "nope"])).is_err());
}

#[test]
fn match_in_finds_line_case_insensitive() {
    let hit = match_in("alpha\nBeta Gamma\n", "beta");
    assert_eq!(hit.as_deref(), Some("Beta Gamma"));
}

#[test]
fn match_in_none_when_absent() {
    assert_eq!(match_in("alpha\nbeta\n", "zeta"), None);
}

#[test]
fn sanitize_rejects_traversal() {
    assert!(sanitize("../secret").is_err());
    assert!(sanitize("a/b").is_err());
    assert!(sanitize("   ").is_err());
}

#[test]
fn ensure_ext_defaults_to_md() {
    assert_eq!(ensure_note_ext("todo"), "todo.md");
    assert_eq!(ensure_note_ext("a.txt"), "a.txt");
    assert_eq!(ensure_note_ext("a.md"), "a.md");
}

fn items() -> Vec<String> {
    ["projects/todo.md", "diary/2026.txt", "shopping.md"]
        .iter()
        .map(|s| s.to_string())
        .collect()
}

#[test]
fn empty_query_returns_nothing() {
    assert!(filter("", &items()).is_empty());
}

#[test]
fn matches_subsequence() {
    let hits = filter("todo", &items());
    assert_eq!(hits.first().copied(), Some(0));
}

#[test]
fn no_match_returns_empty() {
    assert!(filter("zzzzz", &items()).is_empty());
}

#[test]
fn heading_levels() {
    assert_eq!(heading_level("# Title"), Some(1));
    assert_eq!(heading_level("### Sub"), Some(3));
    assert_eq!(heading_level("#NoSpace"), None);
    assert_eq!(heading_level("####### too many"), None);
    assert_eq!(heading_level("plain"), None);
}

#[test]
fn bullets() {
    assert_eq!(bullet("- item").as_deref(), Some("item"));
    assert_eq!(bullet("* item").as_deref(), Some("item"));
    assert_eq!(bullet("item"), None);
}

fn reminder(due: Option<Date>) -> Reminder {
    Reminder {
        id: 1,
        text: "x".into(),
        due,
        created_at: 0,
    }
}

#[test]
fn overdue_when_due_before_today() {
    let r = reminder(Some(date(2026, 1, 1)));
    assert!(r.is_overdue(date(2026, 1, 2)));
}

#[test]
fn not_overdue_on_due_day() {
    let r = reminder(Some(date(2026, 1, 2)));
    assert!(!r.is_overdue(date(2026, 1, 2)));
}

#[test]
fn no_due_never_overdue() {
    let r = reminder(None);
    assert!(!r.is_overdue(date(2999, 1, 1)));
}

#[test]
fn note_file_accepts_md_and_txt() {
    assert!(is_note_file("a.md"));
    assert!(is_note_file("a.txt"));
}

#[test]
fn note_file_rejects_others() {
    assert!(!is_note_file("a.rs"));
    assert!(!is_note_file("a"));
    assert!(!is_note_file("dir/"));
}

#[test]
fn add_then_active_returns_it() {
    let mut store = ReminderStore::in_memory();
    store.add("buy milk", Some(date(2026, 7, 4)), 100).unwrap();
    let active = store.active();
    assert_eq!(active.len(), 1);
    assert_eq!(active[0].text, "buy milk");
    assert_eq!(active[0].due, Some(date(2026, 7, 4)));
}

#[test]
fn dismiss_removes_from_active() {
    let mut store = ReminderStore::in_memory();
    let id = store.add("temp", None, 1).unwrap();
    store.dismiss(id, 2);
    assert!(store.active().is_empty());
}

#[test]
fn dated_reminders_sort_before_undated() {
    let mut store = ReminderStore::in_memory();
    store.add("no date", None, 1).unwrap();
    store.add("dated", Some(date(2026, 7, 4)), 2).unwrap();
    let active = store.active();
    assert_eq!(active[0].text, "dated");
}
