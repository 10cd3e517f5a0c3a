//! Renaming, merging, deleting and attaching.

use kaeru::briefs::node_brief_by_id_at;
use kaeru::edges::link_at;
use kaeru::listing::{count_nodes_in_initiative_at, nodes_in_initiative_at};
use kaeru::mutate::attach::attach_node_at;
use kaeru::mutate::delete::delete_initiative_at;
use kaeru::mutate::merge::merge_initiative_at;
use kaeru::mutate::rename::rename_initiative_at;
use kaeru::nodes::upsert_node_at;
use kaeru::{
    attach_node, audit_trail, delete_initiative, delete_initiative_impact, get_share_policy, link,
    list_initiatives, merge_initiative, node_brief_by_id, nodes_in_initiative, rename_initiative,
    set_share_policy, upsert_node, NodeRecord, SharePolicy, Store, StoreError,
};

fn open() -> Store {
    Store::open_in_memory().expect("open")
}

fn episode(name: &str, body: &str) -> NodeRecord {
    NodeRecord {
        node_type: "episode".to_string(),
        tier: "operational".to_string(),
        name: name.to_string(),
        body: Some(body.to_string()),
        tags: Vec::new(),
        properties: None,
        visibility: "local".to_string(),
        layer: "warm".to_string(),
    }
}

/// Writes an episode under the initiative in scope and returns its id.
fn write_episode(store: &mut Store, name: &str, body: &str) -> String {
    let init = store.current_initiative();
    let id = format!("{}/{name}", init.as_deref().unwrap_or("none"));
    upsert_node(store, &id, episode(name, body), init.as_deref()).unwrap();
    id
}

fn write_episode_at(store: &mut Store, name: &str, body: &str, at: i64) -> String {
    let init = store.current_initiative();
    let id = format!("{}/{name}", init.as_deref().unwrap_or("none"));
    upsert_node_at(store, &id, episode(name, body), init.as_deref(), at).unwrap();
    id
}

/// The id of the node with a name in the initiative in scope.
fn recall_id_by_name(store: &Store, name: &str) -> Option<String> {
    let init = store.current_initiative().expect("scope");
    nodes_in_initiative(store, &init)
        .unwrap()
        .into_iter()
        .find(|b| b.name == name)
        .map(|b| b.id)
}

fn seed_n(store: &mut Store, init: &str, count: usize) -> Vec<String> {
    store.use_initiative(init);
    (0..count)
        .map(|i| write_episode(store, &format!("{init}-note-{i}"), "body"))
        .collect()
}

fn seed_n_at(store: &mut Store, init: &str, count: usize, at: i64) -> Vec<String> {
    store.use_initiative(init);
    (0..count)
        .map(|i| write_episode_at(store, &format!("{init}-note-{i}"), "body", at))
        .collect()
}

#[test]
fn rename_moves_nodes_edges_and_policy() {
    let mut store = open();
    store.use_initiative("old-proj");
    let a = write_episode(&mut store, "a", "A");
    let b = write_episode(&mut store, "b", "B");
    link(&mut store, &a, &b, "causal").unwrap();
    set_share_policy(&mut store, "old-proj", SharePolicy::Team).unwrap();

    let stats = rename_initiative(&mut store, "old-proj", "new-proj").unwrap();
    assert_eq!(stats.nodes, 2);
    assert_eq!(stats.edges, 1);

    let inits = list_initiatives(&store).unwrap();
    assert!(inits.iter().any(|n| n == "new-proj"));
    assert!(!inits.iter().any(|n| n == "old-proj"), "old name gone");

    assert_eq!(get_share_policy(&store, "new-proj").unwrap(), SharePolicy::Team);
    assert_eq!(get_share_policy(&store, "old-proj").unwrap(), SharePolicy::Private);

    store.use_initiative("new-proj");
    assert!(recall_id_by_name(&store, "a").is_some());
    store.use_initiative("old-proj");
    assert!(recall_id_by_name(&store, "a").is_none());
}

#[test]
fn rename_rejects_existing_target() {
    let mut store = open();
    store.use_initiative("a");
    write_episode(&mut store, "na", "x");
    store.use_initiative("b");
    write_episode(&mut store, "nb", "y");
    assert!(rename_initiative(&mut store, "a", "b").is_err(), "merge into existing refused");
}

#[test]
fn rename_says_why_it_refuses() {
    let mut store = open();
    store.use_initiative("a");
    write_episode(&mut store, "na", "x");
    set_share_policy(&mut store, "named-only", SharePolicy::Private).unwrap();

    match rename_initiative(&mut store, "a", "  ") {
        Err(StoreError::Invalid(why)) => assert_eq!(why, "new initiative name must not be empty"),
        other => panic!("{other:?}"),
    }
    match rename_initiative(&mut store, " a", "a ") {
        Err(StoreError::Invalid(why)) => assert_eq!(why, "old and new names are identical"),
        other => panic!("{other:?}"),
    }
    match rename_initiative(&mut store, "a", "named-only") {
        Err(StoreError::Invalid(why)) => assert_eq!(
            why,
            "target initiative `named-only` already exists — rename into a fresh name"
        ),
        other => panic!("{other:?}"),
    }
}

#[test]
fn a_rename_and_its_inverse_restore_everything() {
    let mut store = open();
    store.use_initiative("a");
    let x = write_episode_at(&mut store, "x", "X", 100);
    let y = write_episode_at(&mut store, "y", "Y", 100);
    link_at(&mut store, &x, &y, "causal", 100).unwrap();
    set_share_policy(&mut store, "a", SharePolicy::Team).unwrap();

    rename_initiative_at(&mut store, "a", "b", 101).unwrap();
    let back = rename_initiative_at(&mut store, "b", "a", 102).unwrap();
    assert_eq!((back.nodes, back.edges), (2, 1));
    assert_eq!(list_initiatives(&store).unwrap(), vec!["a".to_string()]);
    assert_eq!(get_share_policy(&store, "a").unwrap(), SharePolicy::Team);

    let trail = audit_trail(&store).unwrap();
    assert_eq!(trail.len(), 2);
    assert_eq!(trail[0].at, 101);
    assert_eq!(trail[0].op, "rename_initiative");
    assert_eq!(trail[0].actor, "system");
    assert_eq!(trail[0].refs, vec!["a".to_string(), "b".to_string()]);
    assert_eq!(trail[1].refs, vec!["b".to_string(), "a".to_string()]);
}

#[test]
fn delete_forgets_exclusive_keeps_shared() {
    let mut store = open();
    store.use_initiative("proj");
    let x = write_episode_at(&mut store, "x-excl", "X", 100);
    let y = write_episode_at(&mut store, "y-shared", "Y", 100);
    attach_node_at(&mut store, &y, "keep", 100, 100).unwrap();

    // Validities are whole seconds: the delete comes in a later one.
    let stats = delete_initiative_at(&mut store, "proj", 102).unwrap();
    assert_eq!(stats.forgotten, 1, "x was exclusive → forgotten");
    assert_eq!(stats.unscoped, 1, "y stays in `keep`");

    let inits = list_initiatives(&store).unwrap();
    assert!(!inits.iter().any(|n| n == "proj"));
    assert!(inits.iter().any(|n| n == "keep"));

    let kept = nodes_in_initiative_at(&store, "keep", 102).unwrap();
    assert!(kept.iter().any(|b| b.name == "y-shared"), "y kept");
    assert!(node_brief_by_id_at(&store, &x, 102).unwrap().is_none(), "x forgotten at NOW");
    assert!(node_brief_by_id_at(&store, &x, 101).unwrap().is_some(), "and still read before");
}

#[test]
fn a_delete_in_the_second_of_the_write_hides_nothing() {
    let mut store = open();
    store.use_initiative("proj");
    let x = write_episode_at(&mut store, "x", "X", 100);
    assert_eq!(delete_initiative_at(&mut store, "proj", 100).unwrap().forgotten, 1);
    assert!(node_brief_by_id_at(&store, &x, 100).unwrap().is_some());
    assert!(node_brief_by_id_at(&store, &x, 200).unwrap().is_some());
    // It has no home any more, though.
    assert!(list_initiatives(&store).unwrap().is_empty());
}

#[test]
fn attach_node_adds_membership_without_moving() {
    let mut store = open();
    store.use_initiative("proj-a");
    let n = write_episode(&mut store, "shared-fact", "body");

    let stats = attach_node(&mut store, &n, "proj-b").unwrap();
    assert!(!stats.already_member);

    store.use_initiative("proj-a");
    assert_eq!(
        recall_id_by_name(&store, "shared-fact"),
        Some(n.clone()),
        "still resolves under the original initiative"
    );
    store.use_initiative("proj-b");
    assert_eq!(
        recall_id_by_name(&store, "shared-fact"),
        Some(n.clone()),
        "now also resolves under the new initiative"
    );

    let inits = list_initiatives(&store).unwrap();
    assert!(inits.iter().any(|i| i == "proj-a"));
    assert!(inits.iter().any(|i| i == "proj-b"));

    assert!(
        attach_node(&mut store, &n, "proj-b").unwrap().already_member,
        "second attach is a no-op"
    );

    assert!(
        attach_node(&mut store, "01900000-0000-7000-0000-000000000000", "proj-b").is_err(),
        "attaching a non-existent node errors"
    );
}

#[test]
fn attach_says_why_it_refuses() {
    let mut store = open();
    match attach_node(&mut store, "n", " \t") {
        Err(StoreError::Invalid(why)) => assert_eq!(why, "initiative name must not be empty"),
        other => panic!("{other:?}"),
    }
    match attach_node(&mut store, "a \"quoted\" id", "proj") {
        Err(StoreError::NotFound(why)) => {
            assert_eq!(why, "no node \"a \\\"quoted\\\" id\" at NOW")
        }
        other => panic!("{other:?}"),
    }
    assert!(list_initiatives(&store).unwrap().is_empty(), "no dangling membership");
}

#[test]
fn merge_rehomes_everything_and_removes_the_source() {
    let mut store = open();
    let ids = seed_n(&mut store, "alpha_beta", 3);
    seed_n(&mut store, "alpha-beta", 1);
    link(&mut store, &ids[0], &ids[1], "refers_to").unwrap();

    let stats = merge_initiative(&mut store, "alpha_beta", "alpha-beta").unwrap();
    assert_eq!(stats.nodes, 3);

    let names = list_initiatives(&store).unwrap();
    assert!(!names.iter().any(|n| n == "alpha_beta"), "source gone");
    assert!(names.iter().any(|n| n == "alpha-beta"), "target stands");
    for id in &ids {
        assert!(
            node_brief_by_id(&store, id).unwrap().is_some(),
            "every node still reads — a merge forgets nothing"
        );
    }
    assert_eq!(nodes_in_initiative(&store, "alpha-beta").unwrap().len(), 4);
}

#[test]
fn merge_keeps_what_delete_would_destroy() {
    let alive = |store: &Store, ids: &[String]| {
        ids.iter()
            .filter(|id| node_brief_by_id_at(store, id, 102).unwrap().is_some())
            .count()
    };

    let mut merged = open();
    let kept = seed_n_at(&mut merged, "duplicate", 4, 100);
    seed_n_at(&mut merged, "canonical", 1, 100);
    merge_initiative_at(&mut merged, "duplicate", "canonical", 102).unwrap();
    assert_eq!(alive(&merged, &kept), 4, "a merge forgets nothing");

    let mut deleted = open();
    let lost = seed_n_at(&mut deleted, "duplicate", 4, 100);
    seed_n_at(&mut deleted, "canonical", 1, 100);
    delete_initiative_at(&mut deleted, "duplicate", 102).unwrap();
    assert_eq!(
        alive(&deleted, &lost),
        0,
        "while the obvious cleanup destroys every note in the duplicate"
    );
}

#[test]
fn merge_says_why_it_refuses() {
    let mut store = open();
    seed_n(&mut store, "target", 1);
    match merge_initiative(&mut store, " ", "target") {
        Err(StoreError::Invalid(why)) => assert_eq!(why, "both initiative names must be non-empty"),
        other => panic!("{other:?}"),
    }
    match merge_initiative(&mut store, "target ", "target") {
        Err(StoreError::Invalid(why)) => {
            assert_eq!(why, "source and target are the same initiative")
        }
        other => panic!("{other:?}"),
    }
    match merge_initiative(&mut store, "nobody", "target") {
        Err(StoreError::NotFound(why)) => {
            assert_eq!(why, "initiative `nobody` has no nodes — nothing to merge")
        }
        other => panic!("{other:?}"),
    }
}

#[test]
fn the_target_keeps_its_own_share_policy() {
    let mut store = open();
    seed_n(&mut store, "loose", 1);
    seed_n(&mut store, "strict", 1);
    set_share_policy(&mut store, "loose", SharePolicy::Team).unwrap();
    set_share_policy(&mut store, "strict", SharePolicy::Private).unwrap();

    let stats = merge_initiative(&mut store, "loose", "strict").unwrap();
    assert!(stats.policy_kept_target, "and it says so");
    assert_eq!(
        get_share_policy(&store, "strict").unwrap(),
        SharePolicy::Private,
        "merging a `team` initiative in did not open `strict`"
    );
}

#[test]
fn a_target_without_a_policy_inherits_the_sources() {
    let mut store = open();
    seed_n(&mut store, "source", 1);
    seed_n(&mut store, "target", 1);
    set_share_policy(&mut store, "source", SharePolicy::Team).unwrap();

    let stats = merge_initiative(&mut store, "source", "target").unwrap();
    assert!(!stats.policy_kept_target);
    assert_eq!(get_share_policy(&store, "target").unwrap(), SharePolicy::Team);
}

#[test]
fn the_delete_impact_is_knowable_before_the_delete() {
    let mut store = open();
    let ids = seed_n(&mut store, "doomed", 3);
    seed_n(&mut store, "other", 1);
    attach_node(&mut store, &ids[0], "other").unwrap();

    let impact = delete_initiative_impact(&store, "doomed").unwrap();
    assert_eq!(impact.forgotten, 2, "two live only here");
    assert_eq!(impact.unscoped, 1, "one has a second home");

    let stats = delete_initiative(&mut store, "doomed").unwrap();
    assert_eq!(stats.forgotten, impact.forgotten);
    assert_eq!(stats.unscoped, impact.unscoped);
}

#[test]
fn deleting_takes_the_edges_of_forgotten_nodes() {
    let mut store = open();
    store.use_initiative("doomed");
    let a = write_episode_at(&mut store, "a", "A", 100);
    let b = write_episode_at(&mut store, "b", "B", 100);
    let c = write_episode_at(&mut store, "c", "C", 100);
    link_at(&mut store, &a, &b, "causal", 100).unwrap();
    link_at(&mut store, &b, &c, "causal", 100).unwrap();
    for id in [&b, &c] {
        attach_node_at(&mut store, id, "keep", 100, 100).unwrap();
    }
    attach_node_at(&mut store, &a, "seen", 100, 100).unwrap();
    attach_node_at(&mut store, &b, "seen", 100, 100).unwrap();
    delete_initiative_at(&mut store, "seen", 101).unwrap();
    assert_eq!(count_nodes_in_initiative_at(&store, "doomed", 101).unwrap(), 3);

    delete_initiative_at(&mut store, "doomed", 102).unwrap();
    let edges = kaeru::listing::edges_in_initiative_at(&store, "keep", 102).unwrap();
    assert_eq!(edges.len(), 1, "the edge from the forgotten node is gone: {edges:?}");
    assert_eq!((edges[0].0.as_str(), edges[0].1.as_str()), (b.as_str(), c.as_str()));
}
