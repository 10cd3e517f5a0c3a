//! Histories: what reads when, and what texts a store holds.

use kaeru::api::nodes::get_node;
use kaeru::edges::{link_at, unlink_at, upsert_edge_at};
use kaeru::listing::{edges_in_initiative_at, nodes_in_initiative_at};
use kaeru::mutate::attach::attach_node_at;
use kaeru::mutate::delete::delete_initiative_at;
use kaeru::mutate::rename::rename_initiative_at;
use kaeru::nodes::{forget_at, read_node_full_at, upsert_node_at};
use kaeru::{
    attach_node, audit_trail, count_nodes_in_initiative, edges_in_initiative, forget,
    list_initiatives, node_brief_by_id, nodes_in_initiative, open_tasks, read_node_full,
    upsert_node, NodeRecord, Store, StoreError,
};

fn open() -> Store {
    Store::open_in_memory().expect("open")
}

fn record(name: &str) -> NodeRecord {
    NodeRecord {
        node_type: "episode".to_string(),
        tier: "operational".to_string(),
        name: name.to_string(),
        body: None,
        tags: vec!["a".to_string(), "".to_string()],
        properties: None,
        visibility: "local".to_string(),
        layer: "warm".to_string(),
    }
}

fn name_at(store: &Store, id: &str, at: i64) -> Option<String> {
    read_node_full_at(store, id, at).unwrap().map(|n| n.name)
}

#[test]
fn every_version_reads_from_its_second_on() {
    let mut store = open();
    upsert_node_at(&mut store, "n", record("first"), None, 10).unwrap();
    upsert_node_at(&mut store, "n", record("second"), None, 20).unwrap();
    forget_at(&mut store, "n", 30).unwrap();
    upsert_node_at(&mut store, "n", record("third"), None, 40).unwrap();
    let seen: Vec<Option<String>> =
        [9, 10, 19, 20, 29, 30, 39, 40, 1000].map(|at| name_at(&store, "n", at)).to_vec();
    let first = Some("first".to_string());
    let second = Some("second".to_string());
    let third = Some("third".to_string());
    assert_eq!(
        seen,
        vec![
            None,
            first.clone(),
            first,
            second.clone(),
            second,
            None,
            None,
            third.clone(),
            third
        ]
    );
}

#[test]
fn a_later_write_in_one_second_takes_the_earlier_ones_place() {
    let mut store = open();
    upsert_node_at(&mut store, "n", record("one"), None, 10).unwrap();
    upsert_node_at(&mut store, "n", record("two"), None, 10).unwrap();
    assert_eq!(name_at(&store, "n", 10).as_deref(), Some("two"));
    forget_at(&mut store, "n", 10).unwrap();
    assert_eq!(name_at(&store, "n", 10).as_deref(), Some("two"));
}

#[test]
fn writing_into_the_past_changes_the_past_alone() {
    let mut store = open();
    upsert_node_at(&mut store, "n", record("late"), None, 20).unwrap();
    upsert_node_at(&mut store, "n", record("early"), None, 10).unwrap();
    assert_eq!(name_at(&store, "n", 15).as_deref(), Some("early"));
    assert_eq!(name_at(&store, "n", 25).as_deref(), Some("late"));
}

#[test]
fn the_ends_of_time_are_moments_too() {
    let mut store = open();
    let first = i64::MIN + 1;
    let last = i64::MAX - 1;
    upsert_node_at(&mut store, "old", record("old"), Some("t"), first).unwrap();
    upsert_node_at(&mut store, "new", record("new"), Some("t"), last).unwrap();
    // The database keeps the very ends for itself, and says so.
    for end in [i64::MIN, i64::MAX] {
        match upsert_node_at(&mut store, "end", record("end"), Some("t"), end) {
            Err(StoreError::Substrate(_)) => {}
            other => panic!("{other:?}"),
        }
        assert_eq!(name_at(&store, "end", i64::MAX), None);
    }
    assert_eq!(name_at(&store, "old", i64::MIN), None);
    assert_eq!(name_at(&store, "old", first).as_deref(), Some("old"));
    assert_eq!(name_at(&store, "old", i64::MAX).as_deref(), Some("old"));
    assert_eq!(name_at(&store, "new", last - 1), None);
    assert_eq!(name_at(&store, "new", last).as_deref(), Some("new"));
    forget_at(&mut store, "old", i64::MIN).unwrap();
    forget_at(&mut store, "old", first).unwrap();
    assert_eq!(name_at(&store, "old", first).as_deref(), Some("old"));
    forget_at(&mut store, "old", first + 1).unwrap();
    assert_eq!(name_at(&store, "old", 0), None);
    let listed = nodes_in_initiative_at(&store, "t", i64::MAX).unwrap();
    assert_eq!(listed.len(), 1);
    assert_eq!(listed[0].ts, Some(last));
    assert!(nodes_in_initiative_at(&store, "t", i64::MIN).unwrap().is_empty());
    delete_initiative_at(&mut store, "t", last).unwrap();
    assert_eq!(audit_trail(&store).unwrap()[0].at, last);
}

#[test]
fn edges_have_a_history_too() {
    let mut store = open();
    for id in ["a", "b"] {
        upsert_node_at(&mut store, id, record(id), Some("t"), 1).unwrap();
    }
    upsert_edge_at(&mut store, "a", "b", "causal", 0.25f64.to_bits() as i64, 10).unwrap();
    upsert_edge_at(&mut store, "a", "b", "causal", 7.0f64.to_bits() as i64, 20).unwrap();
    unlink_at(&mut store, "a", "b", "causal", 30).unwrap();
    let weight = |at: i64| {
        edges_in_initiative_at(&store, "t", at)
            .unwrap()
            .first()
            .map(|e| f64::from_bits(e.3 as u64))
    };
    assert_eq!([9, 10, 20, 30].map(weight), [None, Some(0.25), Some(1.0), None]);
}

#[test]
fn unlinking_touches_one_edge() {
    let mut store = open();
    store.use_initiative("t");
    for id in ["a", "b"] {
        upsert_node_at(&mut store, id, record(id), Some("t"), 1).unwrap();
    }
    link_at(&mut store, "a", "b", "causal", 1).unwrap();
    link_at(&mut store, "b", "a", "causal", 1).unwrap();
    link_at(&mut store, "a", "b", "refers_to", 1).unwrap();
    unlink_at(&mut store, "a", "b", "causal", 2).unwrap();
    let left: Vec<(String, String, String)> = edges_in_initiative_at(&store, "t", 2)
        .unwrap()
        .into_iter()
        .map(|e| (e.0, e.1, e.2))
        .collect();
    let edge = |s: &str, d: &str, t: &str| (s.to_string(), d.to_string(), t.to_string());
    assert_eq!(left, vec![edge("a", "b", "refers_to"), edge("b", "a", "causal")]);
}

#[test]
fn texts_are_held_as_they_are() {
    let mut store = open();
    let odd = [
        "", " ", "'quoted'", "\"double\"", "back\\slash", "line\nbreak", "nul\0byte", "$init",
        "]] :rm node {id}", "ключ", "🐸🐸", "e\u{301}",
    ];
    for id in odd {
        let mut node = record(id);
        node.body = Some(id.to_string());
        node.tags = odd.iter().map(|t| t.to_string()).collect();
        node.properties = Some(id.to_string());
        upsert_node_at(&mut store, id, node, Some(id), 5).unwrap();
    }
    for id in odd {
        let node = read_node_full_at(&store, id, 5).unwrap().expect("there");
        assert_eq!(node.id, id);
        assert_eq!(node.name, id);
        assert_eq!(node.body.as_deref(), Some(id));
        assert_eq!(node.properties.as_deref(), Some(id));
        assert_eq!(node.tags, odd);
        assert_eq!(nodes_in_initiative_at(&store, id, 5).unwrap().len(), 1);
    }
    let mut names: Vec<String> = odd.iter().map(|t| t.to_string()).collect();
    names.sort();
    assert_eq!(list_initiatives(&store).unwrap(), names);
    let stats = rename_initiative_at(&mut store, "nul\0byte", "'; drop", 6).unwrap();
    assert_eq!(stats.nodes, 1);
}

#[test]
fn memberships_outlive_what_they_hold() {
    let mut store = open();
    upsert_node_at(&mut store, "n", record("n"), Some("t"), 1).unwrap();
    forget_at(&mut store, "n", 2).unwrap();
    assert_eq!(list_initiatives(&store).unwrap(), vec!["t".to_string()]);
    assert!(nodes_in_initiative_at(&store, "t", 2).unwrap().is_empty());
    // What does not read cannot be attached.
    assert!(attach_node_at(&mut store, "n", "u", 2, 2).is_err());
    assert!(!attach_node_at(&mut store, "n", "u", 1, 1).unwrap().already_member);
}

#[test]
fn a_version_stamped_ahead_of_the_clock_reads_at_present() {
    let mut store = open();
    store.use_initiative("t");
    // The year 2096 as a second; the present is a microsecond.
    let ahead = 4_000_000_000;
    let mut task = record("ahead");
    task.node_type = "task".to_string();
    upsert_node_at(&mut store, "n", task, Some("t"), ahead).unwrap();
    upsert_node_at(&mut store, "m", record("m"), Some("t"), ahead).unwrap();
    upsert_edge_at(&mut store, "n", "m", "causal", 1.0f64.to_bits() as i64, ahead).unwrap();

    assert_eq!(read_node_full(&store, "n").unwrap().unwrap().name, "ahead");
    assert_eq!(node_brief_by_id(&store, "n").unwrap().unwrap().ts, Some(ahead));
    assert_eq!(get_node(&store, "n").unwrap().name, "ahead");
    assert_eq!(nodes_in_initiative(&store, "t").unwrap().len(), 2);
    assert_eq!(count_nodes_in_initiative(&store, "t").unwrap(), 2);
    assert_eq!(edges_in_initiative(&store, "t").unwrap().len(), 1);
    assert_eq!(open_tasks(&store).unwrap().len(), 1);
    assert!(!attach_node(&mut store, "n", "u").unwrap().already_member);
    // At a second before its own it is not there yet.
    assert_eq!(name_at(&store, "n", ahead - 1), None);
}

#[test]
fn attaching_looks_at_now_and_stamps_the_second() {
    let mut store = open();
    upsert_node_at(&mut store, "n", record("n"), None, 200).unwrap();
    assert!(attach_node_at(&mut store, "n", "u", 199, 100).is_err());
    assert!(!attach_node_at(&mut store, "n", "u", 200, 100).unwrap().already_member);
    assert!(attach_node_at(&mut store, "n", "u", 300, 101).unwrap().already_member);
    let stamps: Vec<i64> = audit_trail(&store).unwrap().iter().map(|e| e.at).collect();
    assert_eq!(stamps, [100, 101]);
}

#[test]
fn the_clock_moves_the_plain_verbs() {
    let mut store = open();
    upsert_node(&mut store, "n", record("n"), None).unwrap();
    assert_eq!(read_node_full(&store, "n").unwrap().unwrap().name, "n");
    assert_eq!(name_at(&store, "n", 0), None, "the clock is past the epoch");
    forget(&mut store, "nobody").unwrap();
    assert_eq!(read_node_full(&store, "nobody").unwrap(), None);
}
