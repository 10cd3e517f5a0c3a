//! Which initiatives there are, which one was meant, and which look alike.

use kaeru::listing::{
    count_nodes_in_initiative_at, edges_in_initiative_at, nodes_in_initiative_at, page,
};
use kaeru::nodes::upsert_node_at;
use kaeru::recall::duplicates::{explain, normalise_initiative, shared_member_count};
use kaeru::recall::suggest::{closest_initiative, Known};
use kaeru::spelling::levenshtein;
use kaeru::{
    attach_node, count_nodes_in_initiative, edges_in_initiative, link, list_initiatives,
    near_duplicate_initiatives, nodes_in_initiative, suggest_initiative, upsert_node, NodeRecord,
    Store,
};

fn record(node_type: &str, name: &str, body: &str) -> NodeRecord {
    NodeRecord {
        node_type: node_type.to_string(),
        tier: "operational".to_string(),
        name: name.to_string(),
        body: Some(body.to_string()),
        tags: Vec::new(),
        properties: None,
        visibility: "local".to_string(),
        layer: "warm".to_string(),
    }
}

/// Writes a note under the initiative in scope and returns its id.
fn jot(store: &mut Store, text: &str) -> String {
    let init = store.current_initiative();
    let id = format!("{}/{text}", init.as_deref().unwrap_or("none"));
    upsert_node(store, &id, record("episode", text, text), init.as_deref()).unwrap();
    id
}

fn seed(store: &mut Store, init: &str) {
    store.use_initiative(init);
    jot(store, "seed");
}

fn open() -> Store {
    Store::open_in_memory().expect("open")
}

#[test]
fn use_initiative_trims_on_entry() {
    let mut store = Store::open_in_memory().expect("open");
    seed(&mut store, "auth-rewrite "); // trailing space
    assert!(
        list_initiatives(&store).unwrap().iter().any(|n| n == "auth-rewrite"),
        "stored under the trimmed name"
    );
}

#[test]
fn suggest_offers_the_closest_known_initiative() {
    let mut store = Store::open_in_memory().expect("open");
    seed(&mut store, "auth-rewrite");
    store.clear_initiative();

    // Exact match → nothing to suggest.
    assert_eq!(suggest_initiative(&store, "auth-rewrite").unwrap(), None);
    // Different casing.
    assert_eq!(
        suggest_initiative(&store, "Auth-Rewrite").unwrap(),
        Some("auth-rewrite".to_string())
    );
    // Truncation / substring.
    assert_eq!(
        suggest_initiative(&store, "auth").unwrap(),
        Some("auth-rewrite".to_string())
    );
    // A one-character typo.
    assert_eq!(
        suggest_initiative(&store, "auth-rewrit").unwrap(),
        Some("auth-rewrite".to_string())
    );
    // Nothing close → no suggestion.
    assert_eq!(suggest_initiative(&store, "totally-unrelated-xyz").unwrap(), None);
}

#[test]
fn a_separator_typo_suggests_the_near_name_not_the_containing_one() {
    let mut store = Store::open_in_memory().expect("open");
    seed(&mut store, "alpha");
    seed(&mut store, "alpha-beta");

    assert_eq!(
        suggest_initiative(&store, "alpha_beta").unwrap().as_deref(),
        Some("alpha-beta"),
        "the closer name wins, whichever rule found it"
    );
}

#[test]
fn containment_still_matches_beyond_the_edit_tolerance() {
    let mut store = Store::open_in_memory().expect("open");
    seed(&mut store, "work-vpn");

    assert_eq!(suggest_initiative(&store, "vpn").unwrap().as_deref(), Some("work-vpn"));
}

#[test]
fn names_differing_only_by_separator_are_reported_as_one_thing() {
    let mut store = Store::open_in_memory().expect("open");
    seed(&mut store, "alpha-beta");
    seed(&mut store, "alpha_beta");
    seed(&mut store, "something-else");

    let dupes = near_duplicate_initiatives(&store).unwrap();
    assert_eq!(dupes.len(), 1, "one pair, not three: {dupes:?}");
    let (a, b, why) = &dupes[0];
    assert!(
        (a == "alpha-beta" && b == "alpha_beta") || (a == "alpha_beta" && b == "alpha-beta"),
        "{dupes:?}"
    );
    assert!(why.contains("separator"), "and says why: {why}");
}

#[test]
fn a_translated_alias_is_caught_by_shared_members_not_by_spelling() {
    let mut store = Store::open_in_memory().expect("open");
    store.use_initiative("n8n-agents");
    let id = jot(&mut store, "a lesson note");
    seed(&mut store, "kurs-agentov");
    attach_node(&mut store, &id, "kurs-agentov").unwrap();

    let dupes = near_duplicate_initiatives(&store).unwrap();
    assert!(
        dupes.iter().any(|(_, _, why)| why.contains("node(s) in both")),
        "names that share nothing but hold the same node: {dupes:?}"
    );
}

#[test]
fn unrelated_initiatives_are_not_reported() {
    let mut store = Store::open_in_memory().expect("open");
    seed(&mut store, "auth-rewrite");
    seed(&mut store, "holiday-planning");

    assert!(near_duplicate_initiatives(&store).unwrap().is_empty());
}

#[test]
fn exactly_the_pairs_that_share_a_name_or_a_node_are_reported() {
    let mut store = open();
    for name in ["a.b", "A-B", "c", "d"] {
        seed(&mut store, name);
    }
    for id in ["c/seed", "a.b/seed"] {
        attach_node(&mut store, id, "d").unwrap();
    }
    let report = near_duplicate_initiatives(&store).unwrap();
    let found: Vec<(&str, &str, &str)> =
        report.iter().map(|(a, b, why)| (a.as_str(), b.as_str(), why.as_str())).collect();
    assert_eq!(
        found,
        [
            ("A-B", "a.b", "same name apart from case and separators"),
            ("a.b", "d", "1 node(s) in both"),
            ("c", "d", "1 node(s) in both"),
        ]
    );
}

#[test]
fn names_are_listed_in_order_and_once() {
    let mut store = open();
    for name in ["zeta", "alpha", "Beta", "élan", "alpha"] {
        seed(&mut store, name);
    }
    store.use_initiative("alpha");
    jot(&mut store, "another");
    assert_eq!(list_initiatives(&store).unwrap(), vec!["Beta", "alpha", "zeta", "élan"]);
}

#[test]
fn blank_names_get_no_suggestion() {
    let mut store = open();
    seed(&mut store, "alpha");
    assert_eq!(suggest_initiative(&store, "   ").unwrap(), None);
    assert_eq!(suggest_initiative(&store, " alpha ").unwrap(), None);
}

fn known(name: &str) -> Known {
    Known { name: name.to_string(), lowered: name.to_lowercase() }
}

#[test]
fn ties_go_to_the_shorter_and_then_to_the_first() {
    let names = vec![known("abcx"), known("abcy"), known("ab")];
    assert_eq!(closest_initiative(&names, &known("abc")).as_deref(), Some("ab"));
    let names = vec![known("abcx"), known("abcy")];
    assert_eq!(closest_initiative(&names, &known("abc")).as_deref(), Some("abcx"));
    let names = vec![known("ABC"), known("abcd")];
    assert_eq!(closest_initiative(&names, &known("aBc")).as_deref(), Some("ABC"));
    let names = vec![known("uvwxyz")];
    assert_eq!(closest_initiative(&names, &known("abc")), None);
}

#[test]
fn edit_distances_are_those_of_the_textbook() {
    assert_eq!(levenshtein("kitten", "sitting"), 3);
    assert_eq!(levenshtein("", "abc"), 3);
    assert_eq!(levenshtein("abc", ""), 3);
    assert_eq!(levenshtein("flaw", "lawn"), 2);
    assert_eq!(levenshtein("same", "same"), 0);
    assert_eq!(levenshtein("vpn", "work-vpn"), 5);
    assert_eq!(levenshtein("alpha_beta", "alpha-beta"), 1);
    // Characters count, not bytes.
    assert_eq!(levenshtein("été", "ete"), 2);
    // Symmetry and the triangle.
    let words = ["", "a", "alpha", "alpha-api", "beta", "aleph"];
    for a in words {
        for b in words {
            assert_eq!(levenshtein(a, b), levenshtein(b, a));
            for c in words {
                assert!(levenshtein(a, c) <= levenshtein(a, b) + levenshtein(b, c));
            }
        }
    }
}

#[test]
fn normalising_folds_case_and_separators() {
    assert_eq!(normalise_initiative("Alpha Beta"), "alphabeta");
    assert_eq!(normalise_initiative("alpha-beta"), "alphabeta");
    assert_eq!(normalise_initiative("alpha_beta."), "alphabeta");
    assert_eq!(normalise_initiative("ÉLAN İ"), "élani\u{307}");
    assert_eq!(normalise_initiative("-_. "), "");
}

#[test]
fn findings_are_explained() {
    assert_eq!(
        explain("alphabeta", "alphabeta", 3).as_deref(),
        Some("same name apart from case and separators")
    );
    assert_eq!(explain("a", "b", 12).as_deref(), Some("12 node(s) in both"));
    assert_eq!(explain("a", "b", 0), None);
}

#[test]
fn shared_members_are_counted() {
    let mut store = open();
    store.use_initiative("one");
    let a = jot(&mut store, "a");
    let b = jot(&mut store, "b");
    jot(&mut store, "c");
    attach_node(&mut store, &a, "two").unwrap();
    attach_node(&mut store, &b, "two").unwrap();
    assert_eq!(shared_member_count(&store, "one", "two").unwrap(), 2);
    assert_eq!(shared_member_count(&store, "one", "three").unwrap(), 0);
    let dupes = near_duplicate_initiatives(&store).unwrap();
    assert_eq!(
        dupes,
        vec![("one".to_string(), "two".to_string(), "2 node(s) in both".to_string())]
    );
}

#[test]
fn listings_leave_audit_events_out_and_cut_bodies() {
    let mut store = open();
    store.set_excerpt_chars(4);
    upsert_node_at(&mut store, "b", record("episode", "long", "ёжик!"), Some("t"), 50).unwrap();
    upsert_node_at(&mut store, "a", record("idea", "short", "body"), Some("t"), 51).unwrap();
    upsert_node_at(&mut store, "c", record("audit_event", "noise", "x"), Some("t"), 52).unwrap();
    upsert_node_at(&mut store, "d", record("episode", "elsewhere", "x"), Some("u"), 53).unwrap();

    let nodes = nodes_in_initiative_at(&store, "t", 60).unwrap();
    assert_eq!(nodes.len(), 2);
    assert_eq!(nodes[0].id, "a");
    assert_eq!(nodes[0].node_type, "idea");
    assert_eq!(nodes[0].body_excerpt.as_deref(), Some("body"));
    assert_eq!(nodes[0].ts, Some(51));
    assert_eq!(nodes[1].id, "b");
    assert_eq!(nodes[1].body_excerpt.as_deref(), Some("ёжик…"));
    assert_eq!(count_nodes_in_initiative_at(&store, "t", 60).unwrap(), 2);
    assert_eq!(count_nodes_in_initiative_at(&store, "t", 50).unwrap(), 1);
    assert_eq!(nodes_in_initiative(&store, "t").unwrap().len(), 2);
    assert_eq!(count_nodes_in_initiative(&store, "nobody").unwrap(), 0);
}

#[test]
fn edges_are_listed_where_both_ends_are_attached() {
    let mut store = open();
    store.use_initiative("t");
    let a = jot(&mut store, "a");
    let b = jot(&mut store, "b");
    store.use_initiative("u");
    let c = jot(&mut store, "c");
    link(&mut store, &b, &a, "refers_to").unwrap();
    link(&mut store, &a, &b, "causal").unwrap();
    link(&mut store, &a, &c, "causal").unwrap();

    let edges = edges_in_initiative(&store, "t").unwrap();
    let named: Vec<(&str, &str, &str, f64)> = edges
        .iter()
        .map(|e| (e.0.as_str(), e.1.as_str(), e.2.as_str(), f64::from_bits(e.3 as u64)))
        .collect();
    assert_eq!(
        named,
        vec![
            (a.as_str(), b.as_str(), "causal", 1.0),
            (b.as_str(), a.as_str(), "refers_to", 1.0),
        ]
    );
    assert!(edges_in_initiative(&store, "u").unwrap().is_empty());
    assert!(edges_in_initiative_at(&store, "t", 0).unwrap().is_empty(), "not yet there");
}

#[test]
fn listings_come_in_pages() {
    let mut store = open();
    for (id, name) in [("1", "plan"), ("2", "Plan b"), ("3", "a plan"), ("4", "note"), ("5", "")] {
        upsert_node_at(&mut store, id, record("episode", name, name), Some("t"), 1).unwrap();
    }
    let nodes = nodes_in_initiative_at(&store, "t", 1).unwrap();
    let ids = |q: Option<&str>, offset: usize, limit: Option<usize>| -> Vec<String> {
        page(&nodes, q, offset, limit).into_iter().map(|b| b.id).collect()
    };
    assert_eq!(page(&nodes, None, 0, None), nodes);
    assert_eq!(ids(None, 2, None), ["3", "4", "5"]);
    assert_eq!(ids(None, 1, Some(2)), ["2", "3"]);
    assert_eq!(ids(None, 4, Some(9)), ["5"]);
    // The text is looked for first, by its own case, and the page is cut of what holds it.
    assert_eq!(ids(Some("plan"), 0, None), ["1", "3"]);
    assert_eq!(ids(Some("plan"), 1, Some(1)), ["3"]);
    assert_eq!(ids(Some(""), 3, None), ["4", "5"], "the empty text is in every name");
    let none: [String; 0] = [];
    assert_eq!(ids(Some("plan"), 2, None), none);
    assert_eq!(ids(None, 5, None), none);
    assert_eq!(ids(None, usize::MAX, Some(usize::MAX)), none);
    assert_eq!(ids(None, 0, Some(0)), none);
    // Pages of one size make up the whole.
    let all: Vec<String> = [0, 2, 4].iter().flat_map(|o| ids(None, *o, Some(2))).collect();
    assert_eq!(all, ids(None, 0, None));
}
