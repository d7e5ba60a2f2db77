use tui_notes::app::{
    hit_label, label_from, parse_due, preview_text, relative_label, tree_label, unreadable, AddStage, App,
    Command, Event, Focus, Key, Mode, PromptKind, SearchHit, SearchScope,
};
use tui_notes::cli::{parse_remind_args, CliError};
use tui_notes::content::{line_snippet, match_in, search, search_lowered};
use tui_notes::date::Date;
use tui_notes::fs_ops::{
    ensure_note_ext, folder_path, note_path, rename_target, sanitize, FsError,
};
use tui_notes::fuzzy::{count_words, filter, rank};
use tui_notes::md::{render, MdStyle};
use tui_notes::models::Reminder;
use tui_notes::notes::{is_markdown, is_note_file, sorted_children, DirNode, NoteTree};
use tui_notes::store::{ReminderRow, ReminderStore, StoreError};

fn date(y: i32, m: u32, d: u32) -> Date {
    Date { year: y, month: m, day: d }
}

fn file(path: &str) -> DirNode {
    DirNode { path: path.to_string(), is_dir: false, children: Vec::new() }
}

fn dir(path: &str, children: Vec<DirNode>) -> DirNode {
    DirNode { path: path.to_string(), is_dir: true, children }
}

/// `/n` holding, in listing order: `b.md`, the folder `Zed` (with
/// `inner.txt`), `a.rs` and `A.txt`.
fn notes() -> DirNode {
    dir(
        "/n",
        vec![
            file("/n/b.md"),
            dir("/n/Zed", vec![file("/n/Zed/inner.txt")]),
            file("/n/a.rs"),
            file("/n/A.txt"),
        ],
    )
}

fn reminder(id: i64, text: &str, due: Option<Date>) -> Reminder {
    Reminder { id, text: text.to_string(), due, created_at: id }
}

fn row_texts(app: &App) -> Vec<(String, bool)> {
    app.display_rows().into_iter().map(|r| (r.text, r.is_dir)).collect()
}

fn key(app: &mut App, k: Key) -> Command {
    app.step(Event::Key(k))
}

fn type_text(app: &mut App, text: &str) {
    for ch in text.chars() {
        let c = key(app, Key::Char(ch));
        assert!(matches!(c, Command::Idle));
    }
}

/// A state with `notes()` loaded and the given reminders.
fn loaded(rems: Vec<Reminder>) -> App {
    let (mut app, first) = App::new("/n".to_string());
    assert!(matches!(first, Command::Reload));
    let c = app.step(Event::Loaded(notes(), rems));
    assert!(matches!(c, Command::Idle));
    app
}

/// Moves the selection down one row and answers the preview read.
fn down_to_note(app: &mut App, expected: &str) {
    match key(app, Key::Char('j')) {
        Command::ReadPreview(p) => assert_eq!(p, expected),
        _ => panic!("expected a preview read"),
    }
    let c = app.step(Event::Preview(Ok("text".to_string())));
    assert!(matches!(c, Command::Idle));
}

// ---- markdown ---------------------------------------------------------------

#[test]
fn render_classifies_each_line() {
    let out = render("# Title\n- item\n> quote\n```\n# code\n```\nplain");
    let got: Vec<(MdStyle, String)> = out.into_iter().map(|l| (l.style, l.text)).collect();
    let fence = "\u{2504}\u{2504}\u{2504}".to_string();
    assert_eq!(
        got,
        vec![
            (MdStyle::Heading(1), "Title".to_string()),
            (MdStyle::Bullet, "  \u{2022} item".to_string()),
            (MdStyle::Quote, "\u{2503} quote".to_string()),
            (MdStyle::Fence, fence.clone()),
            (MdStyle::Code, "# code".to_string()),
            (MdStyle::Fence, fence),
            (MdStyle::Plain, "plain".to_string()),
        ]
    );
}

#[test]
fn render_trims_heading_and_indented_bullet() {
    let out = render("##   Two  \n   * star\n   keep  ");
    let got: Vec<(MdStyle, String)> = out.into_iter().map(|l| (l.style, l.text)).collect();
    assert_eq!(
        got,
        vec![
            (MdStyle::Heading(2), "Two".to_string()),
            (MdStyle::Bullet, "  \u{2022} star".to_string()),
            (MdStyle::Plain, "   keep  ".to_string()),
        ]
    );
}

#[test]
fn render_empty_source_has_no_lines() {
    assert!(render("").is_empty());
}

// ---- notes ------------------------------------------------------------------

#[test]
fn markdown_only_for_lowercase_md() {
    assert!(is_markdown("/n/a.md"));
    assert!(!is_markdown("/n/a.txt"));
    assert!(!is_markdown("/n/a.MD"));
    assert!(!is_markdown("/n/md"));
}

#[test]
fn note_file_needs_an_extension_after_a_dot() {
    assert!(is_note_file("/n/dir.md/x.txt"));
    assert!(!is_note_file("/n/.md"));
    assert!(!is_note_file("/n/md"));
}

#[test]
fn children_sort_dirs_first_then_name_ignoring_case() {
    let order = sorted_children(&notes().children);
    assert_eq!(order, vec![1, 2, 3, 0]);
}

#[test]
fn children_with_equal_names_keep_listing_order() {
    let c = vec![file("/n/B.md"), file("/n/a.md"), file("/n/b.md")];
    assert_eq!(sorted_children(&c), vec![1, 0, 2]);
}

#[test]
fn toggle_twice_restores_the_tree() {
    let mut tree = NoteTree::new("/n".to_string());
    assert_eq!(tree.root(), "/n");
    assert!(!tree.is_expanded("/n/Zed"));
    tree.toggle("/n/Zed");
    assert!(tree.is_expanded("/n/Zed"));
    tree.toggle("/n/Zed");
    assert!(!tree.is_expanded("/n/Zed"));
}

#[test]
fn visible_lists_expanded_folders_only() {
    let mut tree = NoteTree::new("/n".to_string());
    let rows: Vec<(String, usize, bool)> =
        tree.visible(&notes()).into_iter().map(|n| (n.path, n.depth, n.is_dir)).collect();
    assert_eq!(
        rows,
        vec![
            ("/n/Zed".to_string(), 0, true),
            ("/n/A.txt".to_string(), 0, false),
            ("/n/b.md".to_string(), 0, false),
        ]
    );
    tree.toggle("/n/Zed");
    let rows: Vec<(String, usize, bool)> =
        tree.visible(&notes()).into_iter().map(|n| (n.path, n.depth, n.is_dir)).collect();
    assert_eq!(rows[1], ("/n/Zed/inner.txt".to_string(), 1, false));
    assert_eq!(rows.len(), 4);
}

#[test]
fn all_files_walks_in_listing_order() {
    let tree = NoteTree::new("/n".to_string());
    assert_eq!(
        tree.all_files(&notes()),
        vec!["/n/b.md".to_string(), "/n/Zed/inner.txt".to_string(), "/n/A.txt".to_string()]
    );
}

// ---- labels and preview -----------------------------------------------------

#[test]
fn relative_label_keeps_paths_outside_the_root() {
    assert_eq!(relative_label("/notes", "/other/x.md"), "/other/x.md");
    assert_eq!(relative_label("/notes/", "/notes/x.md"), "x.md");
}

#[test]
fn tree_labels_indent_and_mark_folders() {
    assert_eq!(tree_label("/n/Zed", 0, true, false), "\u{25b8} Zed/");
    assert_eq!(tree_label("/n/Zed", 1, true, true), "  \u{25be} Zed/");
    assert_eq!(tree_label("/n/Zed/inner.txt", 1, false, false), "    inner.txt");
}

#[test]
fn hit_label_appends_snippet() {
    assert_eq!(hit_label("a/b.md", &Some("line".to_string())), "a/b.md  \u{2014} line");
    assert_eq!(hit_label("a/b.md", &None), "a/b.md");
}

#[test]
fn preview_keeps_first_two_hundred_lines() {
    let text: String = (0..205).map(|i| format!("l{i}\n")).collect();
    let p = preview_text(&text);
    assert_eq!(p.lines().count(), 200);
    assert!(p.ends_with("l199"));
    assert_eq!(preview_text("a\r\nb\n"), "a\nb");
    assert_eq!(preview_text(""), "");
}

#[test]
fn unreadable_note_message() {
    assert_eq!(unreadable("/x", "boom"), "<cannot read /x: boom>");
}

#[test]
fn parse_due_trims_and_reports() {
    assert_eq!(parse_due(" 2024-02-29 "), Ok(Some(date(2024, 2, 29))));
    assert_eq!(
        parse_due("2023-02-29"),
        Err("invalid date '2023-02-29', expected YYYY-MM-DD".to_string())
    );
}

// ---- file operations ----------------------------------------------------------

#[test]
fn note_path_joins_sanitized_name_with_extension() {
    assert_eq!(note_path("/n", " ideas ").unwrap(), "/n/ideas.md");
    assert_eq!(note_path("/n/", "x.txt").unwrap(), "/n/x.txt");
    assert_eq!(note_path("/n", "x.rs").unwrap(), "/n/x.md");
    assert!(matches!(note_path("/n", "  "), Err(FsError::EmptyName)));
    assert!(matches!(note_path("/n", "a/b"), Err(FsError::BadName(n)) if n == "a/b"));
}

#[test]
fn folder_path_takes_the_name_as_is() {
    assert_eq!(folder_path("/n/Zed", "projects").unwrap(), "/n/Zed/projects");
    assert!(matches!(folder_path("/n", " .. "), Err(FsError::BadName(n)) if n == ".."));
}

#[test]
fn rename_target_stays_in_the_same_folder() {
    assert_eq!(rename_target("/n/a/old.md", "new").unwrap(), "/n/a/new.md");
    assert_eq!(rename_target("/n/a/old.md", "new.txt").unwrap(), "/n/a/new.txt");
    assert!(matches!(rename_target("/n/a/old.md", ""), Err(FsError::EmptyName)));
}

#[test]
fn sanitize_trims_good_names() {
    assert_eq!(sanitize("  plan ").unwrap(), "plan");
    assert_eq!(ensure_note_ext("x.MD"), "x.md");
}

#[test]
fn fs_error_messages() {
    assert_eq!(FsError::EmptyName.message(), "name is empty");
    assert_eq!(
        FsError::BadName("a/b".to_string()).message(),
        "name 'a/b' must not contain '/' or '..'"
    );
    assert_eq!(FsError::NoteExists("/n/x.md".to_string()).message(), "note already exists: /n/x.md");
    assert_eq!(FsError::FolderExists("/n/p".to_string()).message(), "folder already exists: /n/p");
    assert_eq!(FsError::TargetExists("/n/y.md".to_string()).message(), "target already exists: /n/y.md");
    assert_eq!(FsError::Io("disk full".to_string()).message(), "disk full");
}

// ---- content search -----------------------------------------------------------

#[test]
fn match_in_trims_and_caps_snippet() {
    let long = format!("   {}needle{}  ", "x".repeat(10), "y".repeat(100));
    let hit = match_in(&long, "needle").unwrap();
    assert_eq!(hit.chars().count(), 80);
    assert!(hit.starts_with("xxxxxxxxxxneedle"));
}

#[test]
fn content_search_skips_unreadable_and_keeps_order() {
    let contents = vec![
        Some("Hello there".to_string()),
        None,
        Some("nothing\nHELLO again".to_string()),
        Some("bye".to_string()),
    ];
    let hits: Vec<(usize, String)> =
        search("HeLLo", &contents).into_iter().map(|h| (h.file, h.snippet)).collect();
    assert_eq!(hits, vec![(0, "Hello there".to_string()), (2, "HELLO again".to_string())]);
    assert!(search("", &contents).is_empty());
}

// ---- fuzzy --------------------------------------------------------------------

#[test]
fn rank_orders_by_score_then_position() {
    assert_eq!(rank(&vec![Some(3), None, Some(7), Some(3)]), vec![2, 0, 3]);
    assert!(rank(&vec![None, None]).is_empty());
}

#[test]
fn filter_matches_case_insensitively() {
    let items = vec!["Projects/TODO.md".to_string(), "diary.txt".to_string()];
    assert_eq!(filter("todo", &items), vec![0]);
}

// ---- command line -------------------------------------------------------------

fn args(parts: &[&str]) -> Vec<String> {
    parts.iter().map(|s| s.to_string()).collect()
}

#[test]
fn remind_args_errors_and_messages() {
    let missing = parse_remind_args(&args(&["x", "--due"])).unwrap_err();
    assert!(matches!(missing, CliError::MissingDueValue));
    assert_eq!(missing.message(), "--due needs a YYYY-MM-DD value");
    let bad = parse_remind_args(&args(&["x", "--due", "nope"])).unwrap_err();
    assert!(matches!(bad, CliError::InvalidDue(ref v) if v == "nope"));
    assert_eq!(bad.message(), "invalid --due 'nope', expected YYYY-MM-DD");
    let empty = parse_remind_args(&args(&[])).unwrap_err();
    assert!(matches!(empty, CliError::EmptyText));
    assert_eq!(
        empty.message(),
        "reminder text is empty; usage: tui-notes remind <text> [--due YYYY-MM-DD]"
    );
}

#[test]
fn remind_args_last_due_wins_and_words_join() {
    let (text, due) =
        parse_remind_args(&args(&["--due", "2026-01-01", "call", "mum", "--due", "2026-02-03"]))
            .unwrap();
    assert_eq!(text, "call mum");
    assert_eq!(due, Some(date(2026, 2, 3)));
}

// ---- reminder table -----------------------------------------------------------

#[test]
fn ids_follow_the_largest_id() {
    let rows = vec![ReminderRow {
        id: 5,
        text: "old".to_string(),
        due: None,
        created_at: 1,
        dismissed_at: Some(2),
    }];
    let mut store = ReminderStore::from_rows(rows).unwrap();
    assert_eq!(store.add("next", None, 3).unwrap(), 6);
    assert_eq!(store.add("after", None, 4).unwrap(), 7);
    let active: Vec<i64> = store.active().iter().map(|r| r.id).collect();
    assert_eq!(active, vec![6, 7]);
}

#[test]
fn rows_out_of_order_are_refused() {
    let row = |id: i64| ReminderRow {
        id,
        text: "t".to_string(),
        due: None,
        created_at: 0,
        dismissed_at: None,
    };
    assert!(matches!(ReminderStore::from_rows(vec![row(2), row(1)]), Err(StoreError::RowsOutOfOrder)));
    assert!(matches!(ReminderStore::from_rows(vec![row(2), row(2)]), Err(StoreError::RowsOutOfOrder)));
}

#[test]
fn add_refused_when_ids_run_out() {
    let rows = vec![ReminderRow {
        id: i64::MAX,
        text: "last".to_string(),
        due: None,
        created_at: 0,
        dismissed_at: None,
    }];
    let mut store = ReminderStore::from_rows(rows).unwrap();
    assert!(matches!(store.add("one more", None, 1), Err(StoreError::IdsExhausted)));
    assert_eq!(store.rows().len(), 1);
}

#[test]
fn dismiss_keeps_the_row() {
    let mut store = ReminderStore::in_memory();
    let id = store.add("keep me", Some(date(2026, 3, 1)), 10).unwrap();
    store.dismiss(id, 20);
    assert!(store.active().is_empty());
    let row = &store.rows()[0];
    assert_eq!(row.dismissed_at, Some(20));
    assert_eq!(row.due.as_deref(), Some("2026-03-01"));
    store.dismiss(99, 30);
    assert_eq!(store.rows().len(), 1);
}

#[test]
fn active_orders_by_due_then_creation() {
    let mut store = ReminderStore::in_memory();
    store.add("late", Some(date(2026, 9, 1)), 1).unwrap();
    store.add("none", None, 2).unwrap();
    store.add("early b", Some(date(2026, 1, 1)), 5).unwrap();
    store.add("early a", Some(date(2026, 1, 1)), 3).unwrap();
    let texts: Vec<String> = store.active().into_iter().map(|r| r.text).collect();
    assert_eq!(texts, vec!["early a", "early b", "late", "none"]);
}

#[test]
fn unreadable_due_text_reads_as_no_date() {
    let rows = vec![ReminderRow {
        id: 1,
        text: "odd".to_string(),
        due: Some("someday".to_string()),
        created_at: 0,
        dismissed_at: None,
    }];
    let store = ReminderStore::from_rows(rows).unwrap();
    let active = store.active();
    assert_eq!(active.len(), 1);
    assert!(active[0].due.is_none());
}

#[test]
fn overdue_compares_year_month_day() {
    let r = reminder(1, "x", Some(date(2025, 12, 31)));
    assert!(r.is_overdue(date(2026, 1, 1)));
    assert!(!r.is_overdue(date(2025, 12, 31)));
    assert!(!r.is_overdue(date(2025, 1, 31)));
}

// ---- application steps --------------------------------------------------------

#[test]
fn first_load_lists_sorted_notes() {
    let app = loaded(Vec::new());
    assert_eq!(
        row_texts(&app),
        vec![
            ("\u{25b8} Zed/".to_string(), true),
            ("  A.txt".to_string(), false),
            ("  b.md".to_string(), false),
        ]
    );
    assert_eq!(app.files, vec!["/n/b.md", "/n/Zed/inner.txt", "/n/A.txt"]);
    assert_eq!(app.file_labels, vec!["b.md", "Zed/inner.txt", "A.txt"]);
    assert_eq!(app.selected, 0);
    assert_eq!(app.selected_file(), None);
    assert!(!app.is_searching());
    assert_eq!(app.list_len(), 3);
}

#[test]
fn enter_on_folder_expands_it() {
    let mut app = loaded(Vec::new());
    assert!(matches!(key(&mut app, Key::Enter), Command::Reload));
    let c = app.step(Event::Loaded(notes(), Vec::new()));
    assert!(matches!(c, Command::Idle));
    assert_eq!(row_texts(&app)[0], ("\u{25be} Zed/".to_string(), true));
    assert_eq!(row_texts(&app)[1], ("    inner.txt".to_string(), false));
    match key(&mut app, Key::Down) {
        Command::ReadPreview(p) => assert_eq!(p, "/n/Zed/inner.txt"),
        _ => panic!("expected a preview read"),
    }
    assert!(!app.preview_is_md);
    let c = app.step(Event::Preview(Ok("hello\nworld\n".to_string())));
    assert!(matches!(c, Command::Idle));
    assert_eq!(app.preview, "hello\nworld");
}

#[test]
fn preview_error_shows_marker() {
    let mut app = loaded(Vec::new());
    match key(&mut app, Key::Char('j')) {
        Command::ReadPreview(p) => assert_eq!(p, "/n/A.txt"),
        _ => panic!("expected a preview read"),
    }
    app.step(Event::Preview(Err("denied".to_string())));
    assert_eq!(app.preview, "<cannot read /n/A.txt: denied>");
}

#[test]
fn keys_wait_while_an_outcome_is_awaited() {
    let mut app = loaded(Vec::new());
    assert!(matches!(key(&mut app, Key::Char('j')), Command::ReadPreview(_)));
    assert!(matches!(key(&mut app, Key::Char('q')), Command::Idle));
    assert!(!app.should_quit);
    app.step(Event::Preview(Ok("x".to_string())));
    key(&mut app, Key::Char('q'));
    assert!(app.should_quit);
}

#[test]
fn name_search_filters_and_esc_clears() {
    let mut app = loaded(Vec::new());
    assert!(matches!(key(&mut app, Key::Char('/')), Command::Idle));
    assert_eq!(app.mode, Mode::Search);
    match key(&mut app, Key::Char('i')) {
        Command::ReadPreview(p) => assert_eq!(p, "/n/Zed/inner.txt"),
        _ => panic!("expected a preview read"),
    }
    app.step(Event::Preview(Ok("x".to_string())));
    assert!(app.is_searching());
    assert_eq!(row_texts(&app), vec![("Zed/inner.txt".to_string(), false)]);
    assert_eq!(app.selected_file(), Some("/n/Zed/inner.txt".to_string()));
    assert!(matches!(key(&mut app, Key::Esc), Command::Idle));
    assert_eq!(app.mode, Mode::Normal);
    assert!(app.search.is_empty() && app.results.is_empty());
    assert_eq!(app.list_len(), 3);
}

#[test]
fn content_search_reads_notes() {
    let mut app = loaded(Vec::new());
    key(&mut app, Key::Char('/'));
    assert!(matches!(key(&mut app, Key::Tab), Command::Idle));
    assert_eq!(app.search_scope, SearchScope::Content);
    assert!(matches!(key(&mut app, Key::Char('h')), Command::ReadContents));
    let c = app.step(Event::Contents(vec![
        Some("Hello there".to_string()),
        None,
        Some("nothing".to_string()),
    ]));
    match c {
        Command::ReadPreview(p) => assert_eq!(p, "/n/b.md"),
        _ => panic!("expected a preview read"),
    }
    assert!(app.preview_is_md);
    assert_eq!(
        row_texts(&app),
        vec![
            ("b.md  \u{2014} Hello there".to_string(), false),
            ("A.txt  \u{2014} nothing".to_string(), false),
        ]
    );
}

#[test]
fn add_reminder_with_due_date() {
    let mut app = loaded(Vec::new());
    key(&mut app, Key::Char('a'));
    assert_eq!(app.mode, Mode::AddReminder);
    type_text(&mut app, "  buy milk ");
    key(&mut app, Key::Enter);
    assert_eq!(app.add_stage, AddStage::Due);
    type_text(&mut app, "2026-07-04");
    match key(&mut app, Key::Enter) {
        Command::AddReminder(text, due) => {
            assert_eq!(text, "buy milk");
            assert_eq!(due, Some(date(2026, 7, 4)));
        }
        _ => panic!("expected a reminder to store"),
    }
    assert_eq!(app.mode, Mode::Normal);
    let c = app.step(Event::Reminders(vec![reminder(1, "buy milk", Some(date(2026, 7, 4)))]));
    assert!(matches!(c, Command::Idle));
    assert_eq!(app.status, "reminder added");
    assert_eq!(app.reminders.len(), 1);
}

#[test]
fn add_reminder_refuses_empty_text_and_bad_date() {
    let mut app = loaded(Vec::new());
    key(&mut app, Key::Char('a'));
    assert!(matches!(key(&mut app, Key::Enter), Command::Idle));
    assert_eq!(app.status, "reminder text is empty");
    assert_eq!(app.add_stage, AddStage::Text);
    type_text(&mut app, "x");
    key(&mut app, Key::Enter);
    type_text(&mut app, "07/04/2026");
    assert!(matches!(key(&mut app, Key::Enter), Command::Idle));
    assert_eq!(app.status, "invalid date '07/04/2026', expected YYYY-MM-DD");
    assert_eq!(app.mode, Mode::AddReminder);
    assert!(matches!(key(&mut app, Key::Esc), Command::Idle));
    assert_eq!(app.mode, Mode::Normal);
}

#[test]
fn dismiss_selected_reminder() {
    let mut app = loaded(vec![reminder(7, "a", None), reminder(9, "b", None)]);
    key(&mut app, Key::Tab);
    assert_eq!(app.focus, Focus::Reminders);
    key(&mut app, Key::Down);
    assert_eq!(app.rem_selected, 1);
    match key(&mut app, Key::Char('d')) {
        Command::DismissReminder(id) => assert_eq!(id, 9),
        _ => panic!("expected a dismissal"),
    }
    app.step(Event::Reminders(vec![reminder(7, "a", None)]));
    assert_eq!(app.status, "reminder dismissed");
    assert_eq!(app.rem_selected, 0);
}

#[test]
fn new_note_next_to_selected_note() {
    let mut app = loaded(Vec::new());
    down_to_note(&mut app, "/n/A.txt");
    key(&mut app, Key::Char('n'));
    assert_eq!((app.mode, app.prompt_kind), (Mode::Prompt, PromptKind::NewNote));
    type_text(&mut app, "ideas");
    match key(&mut app, Key::Enter) {
        Command::CreateNote(p) => assert_eq!(p, "/n/ideas.md"),
        _ => panic!("expected a note to create"),
    }
    match app.step(Event::FsDone(Ok(()))) {
        Command::OpenEditor(p) => assert_eq!(p, "/n/ideas.md"),
        _ => panic!("expected the editor"),
    }
    assert!(matches!(app.step(Event::EditorClosed), Command::Reload));
    let mut tree = notes();
    tree.children.push(file("/n/ideas.md"));
    match app.step(Event::Loaded(tree, Vec::new())) {
        Command::ReadPreview(p) => assert_eq!(p, "/n/ideas.md"),
        _ => panic!("expected a preview read"),
    }
    assert_eq!(app.status, "note created");
    assert_eq!(app.selected, 3);
}

#[test]
fn new_folder_inside_selected_folder() {
    let mut app = loaded(Vec::new());
    key(&mut app, Key::Char('N'));
    type_text(&mut app, "projects");
    match key(&mut app, Key::Enter) {
        Command::CreateFolder(p) => assert_eq!(p, "/n/Zed/projects"),
        _ => panic!("expected a folder to create"),
    }
    let c = app.step(Event::FsDone(Err(FsError::FolderExists("/n/Zed/projects".to_string()))));
    assert!(matches!(c, Command::Idle));
    assert_eq!(app.status, "folder already exists: /n/Zed/projects");
}

#[test]
fn bad_name_keeps_the_prompt() {
    let mut app = loaded(Vec::new());
    key(&mut app, Key::Char('n'));
    type_text(&mut app, "../x");
    assert!(matches!(key(&mut app, Key::Enter), Command::Idle));
    assert_eq!(app.status, "name '../x' must not contain '/' or '..'");
    assert_eq!(app.mode, Mode::Prompt);
}

#[test]
fn rename_selected_note() {
    let mut app = loaded(Vec::new());
    key(&mut app, Key::Char('R'));
    assert_eq!(app.status, "select a file to rename");
    down_to_note(&mut app, "/n/A.txt");
    down_to_note(&mut app, "/n/b.md");
    key(&mut app, Key::Char('R'));
    assert_eq!(app.prompt_input, "b.md");
    for _ in 0..4 {
        key(&mut app, Key::Backspace);
    }
    type_text(&mut app, "c");
    match key(&mut app, Key::Enter) {
        Command::Rename(from, to) => {
            assert_eq!(from, "/n/b.md");
            assert_eq!(to, "/n/c.md");
        }
        _ => panic!("expected a rename"),
    }
}

#[test]
fn delete_asks_first() {
    let mut app = loaded(Vec::new());
    down_to_note(&mut app, "/n/A.txt");
    key(&mut app, Key::Char('D'));
    assert_eq!(app.mode, Mode::Confirm);
    key(&mut app, Key::Char('x'));
    assert_eq!(app.mode, Mode::Normal);
    assert!(app.delete_target.is_none());
    key(&mut app, Key::Char('D'));
    match key(&mut app, Key::Char('y')) {
        Command::Delete(p) => assert_eq!(p, "/n/A.txt"),
        _ => panic!("expected a deletion"),
    }
    assert!(matches!(app.step(Event::FsDone(Ok(()))), Command::Reload));
    app.step(Event::Loaded(notes(), Vec::new()));
    assert_eq!(app.status, "deleted");
}

#[test]
fn tab_twice_returns_focus() {
    let mut app = loaded(Vec::new());
    key(&mut app, Key::Tab);
    assert_eq!(app.focus, Focus::Reminders);
    key(&mut app, Key::Tab);
    assert_eq!(app.focus, Focus::Tree);
}

#[test]
fn reload_clamps_selection_to_shorter_list() {
    let mut app = loaded(Vec::new());
    down_to_note(&mut app, "/n/A.txt");
    down_to_note(&mut app, "/n/b.md");
    assert!(matches!(key(&mut app, Key::Char('r')), Command::Reload));
    let c = app.step(Event::Loaded(dir("/n", vec![file("/n/only.md")]), Vec::new()));
    match c {
        Command::ReadPreview(p) => assert_eq!(p, "/n/only.md"),
        _ => panic!("expected a preview read"),
    }
    assert_eq!(app.selected, 0);
}

#[test]
fn esc_quits_in_normal_mode() {
    let mut app = loaded(Vec::new());
    key(&mut app, Key::Esc);
    assert!(app.should_quit);
}

#[test]
fn due_text_pads_and_signs_years_and_reads_back() {
    let mut store = ReminderStore::in_memory();
    let dates = [date(999, 1, 5), date(12345, 11, 30), date(-5, 2, 28), date(0, 2, 29)];
    for (i, d) in dates.iter().enumerate() {
        store.add("x", Some(*d), i as i64).unwrap();
    }
    let texts: Vec<String> = store.rows().iter().map(|r| r.due.clone().unwrap()).collect();
    assert_eq!(texts, vec!["0999-01-05", "+12345-11-30", "-0005-02-28", "0000-02-29"]);
    let mut read: Vec<Date> = store.active().into_iter().map(|r| r.due.unwrap()).collect();
    read.sort_by_key(|d| (d.year, d.month, d.day));
    let mut expected = dates.to_vec();
    expected.sort_by_key(|d| (d.year, d.month, d.day));
    assert_eq!(read, expected);
}

#[test]
fn hits_without_a_label_are_not_shown() {
    let mut app = loaded(Vec::new());
    app.search = "x".to_string();
    app.results = vec![
        SearchHit { file: 7, snippet: None },
        SearchHit { file: 2, snippet: Some("s".to_string()) },
    ];
    assert_eq!(row_texts(&app), vec![("A.txt  \u{2014} s".to_string(), false)]);
    assert_eq!(app.selected_file(), None);
}

#[test]
fn folders_are_told_apart_by_components() {
    let mut tree = NoteTree::new("/n".to_string());
    tree.toggle("/n/Zed");
    assert!(tree.is_expanded("/n/Zed/"));
    assert!(tree.is_expanded("/n//Zed"));
    assert!(tree.is_expanded("/n/./Zed"));
    assert!(!tree.is_expanded("n/Zed"));
    tree.toggle("/n/Zed/");
    assert!(!tree.is_expanded("/n/Zed"));
    let rows: Vec<String> = tree.visible(&notes()).into_iter().map(|n| n.path).collect();
    assert_eq!(rows.len(), 3);
}

#[test]
fn toggles_count_by_parity() {
    let mut tree = NoteTree::new("/n".to_string());
    for p in ["/a", "/b", "/a/", "/a//", "/b"] {
        tree.toggle(p);
    }
    assert!(tree.is_expanded("/a"));
    assert!(!tree.is_expanded("/b"));
    assert_eq!(tree.root(), "/n");
}

#[test]
fn note_extension_is_settled_once() {
    for p in ["/n/a.rs", "/n/a", "/n/.hidden", "/n/a.md", "/n/b.txt", "/n/x/"] {
        let once = ensure_note_ext(p);
        assert_eq!(ensure_note_ext(&once), once);
        assert!(is_note_file(&once));
    }
    assert_eq!(ensure_note_ext("/n/x/"), "/n/x.md");
    assert_eq!(ensure_note_ext("/n/.hidden"), "/n/.hidden.md");
}

#[test]
fn relative_label_of_root_spellings() {
    assert_eq!(relative_label("/notes", "/notes//a/./b.md"), "a/./b.md");
    assert_eq!(relative_label("/notes/", "/notes"), "");
    assert_eq!(relative_label("/note", "/notes/a.md"), "/notes/a.md");
}

#[test]
fn words_are_runs_without_spaces() {
    assert_eq!(count_words(""), 0);
    assert_eq!(count_words("   "), 0);
    assert_eq!(count_words(" a  bc d "), 3);
    assert_eq!(count_words("x"), 1);
}

#[test]
fn long_single_word_query_is_accepted() {
    let query = "t".repeat(70_000);
    let items = vec!["todo.md".to_string()];
    assert!(filter(&query, &items).is_empty());
}

#[test]
fn snippet_from_a_given_lowercase_line() {
    let line: Vec<char> = "  Big NEWS  ".chars().collect();
    let needle: Vec<char> = "news".chars().collect();
    assert_eq!(line_snippet(&line, "  big news  ", &needle), Some("Big NEWS".to_string()));
    assert_eq!(line_snippet(&line, "  big nuts  ", &needle), None);
}

#[test]
fn search_with_a_lowered_needle() {
    let contents = vec![Some("ABC".to_string()), Some("xbcx".to_string())];
    let hits: Vec<(usize, String)> =
        search_lowered("bc", &contents).into_iter().map(|h| (h.file, h.snippet)).collect();
    assert_eq!(hits, vec![(0, "ABC".to_string()), (1, "xbcx".to_string())]);
    assert!(search_lowered("BC", &contents).is_empty());
}

#[test]
fn label_from_stripped_or_whole() {
    assert_eq!(label_from("/n/a.md", Some("a.md".to_string())), "a.md");
    assert_eq!(label_from("/n/a.md", None), "/n/a.md");
}

#[test]
fn active_orders_by_date_for_four_digit_years() {
    let mut store = ReminderStore::in_memory();
    store.add("late", Some(date(2026, 1, 2)), 1).unwrap();
    store.add("early", Some(date(999, 12, 31)), 2).unwrap();
    store.add("mid", Some(date(2026, 1, 1)), 3).unwrap();
    let texts: Vec<String> = store.active().into_iter().map(|r| r.text).collect();
    assert_eq!(texts, vec!["early", "mid", "late"]);
}

#[test]
fn label_joined_onto_root_gives_the_path_back() {
    for (root, path) in [("/notes", "/notes//a/./b.md"), ("/notes/", "/notes/x.md"), ("notes", "notes/d/e.txt")] {
        let label = relative_label(root, path);
        let back = tui_notes::paths::join(root, &label);
        assert_eq!(std::path::Path::new(&back), std::path::Path::new(path));
        assert!(!label.starts_with('/'));
    }
}

#[test]
fn renamed_note_stays_beside_its_source() {
    assert_eq!(rename_target("a//b/old.md", "x").unwrap(), "a//b/x.md");
    assert_eq!(rename_target("old.md", "x").unwrap(), "x.md");
    assert_eq!(rename_target("./old.md", "x").unwrap(), "./x.md");
}

#[test]
fn active_orders_by_date_for_any_year() {
    let mut store = ReminderStore::in_memory();
    store.add("far", Some(date(10000, 1, 1)), 1).unwrap();
    store.add("soon", Some(date(2026, 7, 4)), 2).unwrap();
    store.add("ancient", Some(date(-20, 1, 1)), 3).unwrap();
    store.add("older", Some(date(-300, 5, 5)), 4).unwrap();
    store.add("none", None, 0).unwrap();
    let texts: Vec<String> = store.active().into_iter().map(|r| r.text).collect();
    assert_eq!(texts, vec!["older", "ancient", "soon", "far", "none"]);
}

/// Performs the reminder commands of a step against `store` and hands the
/// outcomes back, as the program does, until the step waits for a key.
fn run_with_store(app: &mut App, store: &mut ReminderStore, mut command: Command, now: i64) {
    loop {
        let outcome = match command {
            Command::Idle => return,
            Command::AddReminder(text, due) => {
                store.add(&text, due, now).unwrap();
                Event::Reminders(store.active())
            }
            Command::DismissReminder(id) => {
                store.dismiss(id, now);
                Event::Reminders(store.active())
            }
            Command::ReadPreview(_) => Event::Preview(Ok(String::new())),
            Command::Reload => Event::Loaded(notes(), store.active()),
            _ => panic!("unexpected command in a reminder scenario"),
        };
        command = app.step(outcome);
    }
}

fn press(app: &mut App, store: &mut ReminderStore, keys: &str, now: i64) {
    for ch in keys.chars() {
        let k = match ch {
            '\r' => Key::Enter,
            '\t' => Key::Tab,
            c => Key::Char(c),
        };
        let c = app.step(Event::Key(k));
        run_with_store(app, store, c, now);
    }
}

#[test]
fn add_reminder_keys_store_it() {
    let mut store = ReminderStore::in_memory();
    let mut app = loaded(Vec::new());
    press(&mut app, &mut store, "abuy milk\r\r", 5);
    let active = store.active();
    assert_eq!(active.len(), 1, "expected one active reminder");
    assert_eq!(active[0].text, "buy milk");
    assert!(active[0].due.is_none());
    assert_eq!(active[0].created_at, 5);
    assert_eq!(app.reminders.len(), 1);
}

#[test]
fn add_then_dismiss_keys_leave_no_active_reminder() {
    let mut store = ReminderStore::in_memory();
    let mut app = loaded(Vec::new());
    press(&mut app, &mut store, "atemp reminder\r\r\td", 7);
    assert!(store.active().is_empty(), "reminder should be dismissed");
    assert_eq!(store.rows().len(), 1);
    assert_eq!(store.rows()[0].dismissed_at, Some(7));
    assert!(app.reminders.is_empty());
}

#[test]
fn tree_rows_sit_under_the_root_once_each() {
    let mut tree = NoteTree::new("/n".to_string());
    tree.toggle("/n/Zed");
    let rows = tree.visible(&notes());
    let root = std::path::Path::new("/n");
    let mut seen = Vec::new();
    for row in &rows {
        let rel = std::path::Path::new(&row.path).strip_prefix(root).unwrap();
        assert_eq!(rel.components().count(), row.depth + 1);
        assert!(!seen.contains(&row.path));
        seen.push(row.path.clone());
    }
    assert_eq!(ensure_note_ext("todo"), "todo.md");
}
