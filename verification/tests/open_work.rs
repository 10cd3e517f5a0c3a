//! Open tasks, due reminders and open claims.

use chrono::Utc;
use kaeru::board::effective_statuses;
use kaeru::nodes::upsert_node_at;
use kaeru::open_work::{due_reminders_at, open_claims_at, open_tasks_at};
use kaeru::tags::{open_on_day, parse_number, parse_window, window_open};
use kaeru::text::less;
use kaeru::{
    attach_node, due_reminders, open_claims, open_tasks, read_node_full, upsert_node, BoardStatus,
    NodeRecord, Store,
};

fn store_t() -> Store {
    let mut store = Store::open_in_memory().expect("open");
    store.use_initiative("t");
    store
}

fn record(node_type: &str, name: &str, tags: &[&str]) -> NodeRecord {
    NodeRecord {
        node_type: node_type.to_string(),
        tier: "operational".to_string(),
        name: name.to_string(),
        body: Some("body".to_string()),
        tags: tags.iter().map(|t| t.to_string()).collect(),
        properties: None,
        visibility: "local".to_string(),
        layer: "warm".to_string(),
    }
}

/// Writes a task under the initiative in scope and returns its id.
fn write_task(store: &mut Store, name: &str, due: Option<&str>) -> Option<String> {
    let init = store.current_initiative();
    let id = format!("task/{name}");
    let dated = due.map(|d| format!("due:{d}"));
    let mut tags = vec!["status:open"];
    tags.extend(dated.as_deref());
    upsert_node(store, &id, record("task", name, &tags), init.as_deref()).ok()?;
    Some(id)
}

/// Moves a task to the terminal column of the built-in board.
fn complete_task(store: &mut Store, id: &str) -> Option<()> {
    let node = read_node_full(store, id).ok()??;
    let tags: Vec<&str> = node
        .tags
        .iter()
        .map(|t| if t.starts_with("status:") { "status:done" } else { t.as_str() })
        .collect();
    upsert_node(store, id, record("task", &node.name, &tags), None).ok()
}

fn formulate_hypothesis(store: &mut Store, name: &str) -> Option<()> {
    let init = store.current_initiative();
    let id = format!("claim/{name}");
    upsert_node(store, &id, record("hypothesis", name, &["status:open"]), init.as_deref()).ok()
}

#[test]
fn a_completed_task_leaves_the_open_list() {
    let mut store = store_t();
    let id = write_task(&mut store, "ship the thing", None).expect("task");
    assert_eq!(open_tasks(&store).expect("read").len(), 1);
    complete_task(&mut store, &id).expect("done");
    assert!(
        open_tasks(&store).expect("read").is_empty(),
        "a done task is not open work any more"
    );
}

#[test]
fn a_past_due_date_reads_as_overdue_and_sorts_first() {
    let mut store = store_t();
    write_task(&mut store, "no deadline", None).expect("task");
    write_task(&mut store, "far future", Some("2999-01-01")).expect("task");
    write_task(&mut store, "long past", Some("2000-01-01")).expect("task");

    let tasks = open_tasks(&store).expect("read");
    assert_eq!(tasks.len(), 3);
    assert!(tasks[0].overdue, "the past-due task leads: {tasks:?}");
    assert_eq!(tasks[0].due.as_deref(), Some("2000-01-01"));
    assert!(!tasks[1].overdue, "a future deadline is not overdue");
    assert_eq!(tasks[2].due, None, "undated tasks sink to the bottom");
}

#[test]
fn open_claims_are_hypotheses_only_not_every_status_open_node() {
    let mut store = store_t();
    write_task(&mut store, "a task also carries status:open", None).expect("task");
    formulate_hypothesis(&mut store, "the-claim").expect("claim");

    let claims = open_claims(&store).expect("read");
    assert_eq!(claims.len(), 1, "the task must not leak in: {claims:?}");
    assert_eq!(claims[0].name, "the-claim");
}

/// Writes a node carrying `tags` verbatim.
fn tagged_node(store: &mut Store, name: &str, tags: &[&str]) {
    upsert_node(store, name, record("episode", name, tags), None).expect("write");
    attach_node(store, name, "t").expect("attach");
}

/// `YYYY-MM-DD`, `days` from today, negative for the past.
fn day(days: i64) -> String {
    (Utc::now().date_naive() + chrono::Duration::days(days)).format("%Y-%m-%d").to_string()
}

#[test]
fn a_reminder_is_silent_before_its_date_and_due_after() {
    let mut store = store_t();
    tagged_node(&mut store, "not-yet", &[&format!("after:{}", day(30)), "for:7d"]);
    assert!(
        due_reminders(&store).expect("read").is_empty(),
        "a month out is not today's business"
    );

    tagged_node(&mut store, "now-it-matters", &[&format!("after:{}", day(-1)), "for:7d"]);
    let due = due_reminders(&store).expect("read");
    assert_eq!(due.len(), 1, "{due:?}");
    assert_eq!(due[0].name, "now-it-matters");
    assert!(due[0].is_first_sighting(), "never delivered yet");
}

#[test]
fn a_reminder_dated_today_is_due_today() {
    let mut store = store_t();
    tagged_node(&mut store, "today", &[&format!("after:{}", day(0)), "for:3d"]);
    assert_eq!(due_reminders(&store).expect("read").len(), 1);
}

#[test]
fn an_unseen_reminder_waits_however_long_it_takes() {
    let mut store = store_t();
    tagged_node(&mut store, "waited-a-year", &[&format!("after:{}", day(-365)), "for:2d"]);
    let due = due_reminders(&store).expect("read");
    assert_eq!(due.len(), 1, "still waiting to be seen: {due:?}");
}

#[test]
fn a_seen_reminder_stays_due_until_its_window_closes() {
    let mut store = store_t();
    tagged_node(
        &mut store,
        "still-insisting",
        &[&format!("after:{}", day(-10)), "for:7d", &format!("seen:{}", day(-3))],
    );
    assert_eq!(due_reminders(&store).expect("read").len(), 1);
}

#[test]
fn a_reminder_goes_quiet_once_its_window_closes() {
    let mut store = store_t();
    tagged_node(
        &mut store,
        "had-its-turn",
        &[&format!("after:{}", day(-30)), "for:7d", &format!("seen:{}", day(-8))],
    );
    assert!(due_reminders(&store).expect("read").is_empty());
}

#[test]
fn a_date_without_a_window_is_not_a_reminder() {
    let mut store = store_t();
    tagged_node(&mut store, "no-window", &[&format!("after:{}", day(-1))]);
    assert!(due_reminders(&store).expect("read").is_empty());
}

#[test]
fn reminders_are_ordered_oldest_moment_first() {
    let mut store = store_t();
    tagged_node(&mut store, "recent", &[&format!("after:{}", day(-1)), "for:9d"]);
    tagged_node(&mut store, "ancient", &[&format!("after:{}", day(-20)), "for:9d"]);
    let due = due_reminders(&store).expect("read");
    assert_eq!(
        due.iter().map(|r| r.name.as_str()).collect::<Vec<_>>(),
        vec!["ancient", "recent"],
        "the longest-standing moment leads"
    );
}

#[test]
fn an_unparseable_seen_stamp_leaves_the_window_open() {
    assert!(window_open("not-a-date", 1, "2026-09-09"));
}

#[test]
fn the_window_boundary_and_the_unit_are_both_forgiving() {
    assert!(window_open("2026-09-09", 1, "2026-09-09"), "day one counts");
    assert!(!window_open("2026-09-09", 1, "2026-09-10"), "and then it is over");
    assert_eq!(parse_window("for:3"), Some(3));
    assert_eq!(parse_window("for:3d"), Some(3));
    assert_eq!(parse_window("for:0d"), None, "a zero-day window is not one");
    assert_eq!(parse_window("for:soon"), None);
}

#[test]
fn windows_read_numbers_as_rust_does() {
    for text in [
        "0", "7", "+7", "-7", "007", "", "+", "-", "--1", "1 ", " 1", "1_0", "٣", "d", "1d",
        "9223372036854775807", "9223372036854775808", "-9223372036854775808",
        "-9223372036854775809", "99999999999999999999999",
    ] {
        assert_eq!(parse_number(text), text.parse::<i64>().ok(), "{text:?}");
    }
    assert_eq!(parse_window("for:"), None);
    assert_eq!(parse_window("for:d"), None);
    assert_eq!(parse_window("for:3dd"), None);
    assert_eq!(parse_window("for:-3d"), None);
    assert_eq!(parse_window("for:+3d"), Some(3));
    assert_eq!(parse_window("FOR:3d"), None);
    assert_eq!(parse_window("for:9223372036854775807d"), Some(i64::MAX));
}

#[test]
fn windows_count_days_across_months_and_leap_years() {
    assert!(window_open("2024-02-28", 3, "2024-03-01"));
    assert!(!window_open("2024-02-28", 2, "2024-03-01"));
    assert!(!window_open("2023-02-28", 1, "2023-03-01"));
    assert!(window_open("2026-09-09", 1, "2026-09-01"), "a stamp from the future is open");
    assert!(window_open("2026-09-09", 1, "today"));
    assert!(open_on_day(Some(10), Some(16), 7));
    assert!(!open_on_day(Some(10), Some(17), 7));
    assert!(open_on_day(None, Some(17), 1));
}

#[test]
fn dates_compare_as_texts() {
    let dates = ["0999-12-31", "2025-12-31", "2026-01-02", "2026-01-10", "2026-10-01"];
    for (i, a) in dates.iter().enumerate() {
        for (j, b) in dates.iter().enumerate() {
            assert_eq!(less(a, b), i < j, "{a} {b}");
        }
    }
    assert!(less("", "a") && !less("a", "") && less("a", "ab") && less("Z", "a"));
    assert!(less("z", "é") && less("\u{ffff}", "\u{10000}"));
}

#[test]
fn tasks_come_by_date_then_by_age() {
    let mut store = store_t();
    let mut put = |id: &str, tags: &[&str], at: i64| {
        upsert_node_at(&mut store, id, record("task", id, tags), Some("t"), at).unwrap();
    };
    put("e", &["status:open"], 10);
    put("d", &["status:open"], 20);
    put("c", &["status:open", "due:2026-01-02"], 30);
    put("b", &["status:open", "due:2026-01-01"], 40);
    put("a", &["status:open", "due:2026-01-02"], 50);
    put("z", &["status:done", "due:2026-01-02"], 60);
    put("drift", &["status:whatever"], 5);
    put("bare", &[], 6);

    let tasks = open_tasks_at(&store, "2026-01-02", 100).unwrap();
    let ids: Vec<&str> = tasks.iter().map(|t| t.id.as_str()).collect();
    assert_eq!(ids, vec!["b", "a", "c", "d", "e", "bare", "drift"]);
    assert_eq!(
        tasks.iter().map(|t| t.overdue).collect::<Vec<_>>(),
        vec![true, false, false, false, false, false, false],
        "due today is not overdue"
    );
    assert_eq!(tasks[0].ts, Some(40));
    assert_eq!(tasks[5].status, "");
    assert_eq!(tasks[6].status, "whatever");
    // At an earlier moment less was there.
    assert_eq!(open_tasks_at(&store, "2026-01-02", 15).unwrap().len(), 3);
}

#[test]
fn the_last_column_of_the_board_is_the_terminal_one() {
    let mut store = store_t();
    upsert_node_at(&mut store, "a", record("task", "a", &["status:done"]), Some("t"), 1).unwrap();
    upsert_node_at(&mut store, "b", record("task", "b", &["status:shipped"]), Some("t"), 1).unwrap();
    let ids = |store: &Store| -> Vec<String> {
        open_tasks_at(store, "2026-01-01", 9).unwrap().into_iter().map(|t| t.id).collect()
    };
    assert_eq!(ids(&store), vec!["b"]);

    let column = |key: &str| BoardStatus { key: key.to_string(), label: key.to_string() };
    store.set_statuses("t", vec![column("open"), column("done"), column("shipped")]);
    assert_eq!(ids(&store), vec!["a"]);
    assert_eq!(effective_statuses(&store, "t").len(), 3);
    // An empty registry does not count, and another initiative's does not either.
    store.set_statuses("t", Vec::new());
    store.set_statuses("u", vec![column("done")]);
    assert_eq!(ids(&store), vec!["a"]);
    assert_eq!(effective_statuses(&store, "other").last().unwrap().key, "done");
    // Without an initiative in scope the built-in vocabulary decides.
    store.clear_initiative();
    assert_eq!(ids(&store), vec!["b"]);
}

#[test]
fn reminders_and_claims_stay_in_scope() {
    let mut store = store_t();
    let tags = ["after:2026-01-01", "for:7d", "seen:2026-01-02"];
    upsert_node_at(&mut store, "here", record("reference", "here", &tags), Some("t"), 1).unwrap();
    upsert_node_at(&mut store, "there", record("idea", "there", &tags), Some("u"), 1).unwrap();
    upsert_node_at(&mut store, "noise", record("audit_event", "noise", &tags), Some("t"), 1).unwrap();
    let open = ["status:open"];
    upsert_node_at(&mut store, "old", record("hypothesis", "old", &open), Some("t"), 1).unwrap();
    upsert_node_at(&mut store, "new", record("hypothesis", "new", &open), Some("t"), 2).unwrap();
    upsert_node_at(&mut store, "far", record("hypothesis", "far", &open), Some("u"), 3).unwrap();
    let shut = ["status:confirmed"];
    upsert_node_at(&mut store, "shut", record("hypothesis", "shut", &shut), Some("t"), 3).unwrap();

    let due = due_reminders_at(&store, "2026-01-08", 9).unwrap();
    assert_eq!(due.len(), 1);
    assert_eq!(due[0].name, "here");
    assert_eq!(due[0].after, "2026-01-01");
    assert_eq!(due[0].window_days, 7);
    assert_eq!(due[0].seen.as_deref(), Some("2026-01-02"));
    assert_eq!(due[0].body_excerpt.as_deref(), Some("body"));
    assert_eq!(due[0].ts, Some(1));
    assert!(!due[0].is_first_sighting());
    assert!(due_reminders_at(&store, "2026-01-09", 9).unwrap().is_empty());
    assert!(due_reminders_at(&store, "2025-12-31", 9).unwrap().is_empty());

    let claims = open_claims_at(&store, 9).unwrap();
    assert_eq!(claims.iter().map(|b| b.name.as_str()).collect::<Vec<_>>(), vec!["new", "old"]);
    store.clear_initiative();
    let claims = open_claims_at(&store, 9).unwrap();
    assert_eq!(
        claims.iter().map(|b| b.name.as_str()).collect::<Vec<_>>(),
        vec!["far", "new", "old"]
    );
    assert_eq!(due_reminders_at(&store, "2026-01-08", 9).unwrap().len(), 2);
}
