//! The REST rules: nodes, edges, health, errors and the published vocabularies.

use kaeru::api::docs::{finalise, CloudApiDoc, FieldDoc, TagDoc, BEARER};
use kaeru::api::edges::{default_weight, ingest_edge_at, retract_edge_at};
use kaeru::api::nodes::{get_node_at, ingest_node_at, retract_node_at};
use kaeru::api::{authorised, nodes};
use kaeru::edges::clamp_weight;
use kaeru::listing::edges_in_initiative_at;
use kaeru::{
    health, list_initiatives, version, ApiError, EdgeIngestReq, EdgeRetractReq, Layer,
    NodeIngestReq, Store, Vocabulary,
};

const ID: &str = "01a03900-0000-7000-8000-000000000abc";

fn open() -> Store {
    Store::open_in_memory().expect("open")
}

fn texts(values: &[&str]) -> Vec<String> {
    values.iter().map(|v| v.to_string()).collect()
}

fn vocabulary() -> Vocabulary {
    Vocabulary {
        node_types: texts(&["episode", "task", "hypothesis", "reference", "board"]),
        tiers: texts(&["operational", "archival"]),
        edge_types: texts(&["causal", "refers_to"]),
    }
}

fn node(id: &str) -> NodeIngestReq {
    NodeIngestReq {
        id: id.to_string(),
        node_type: "episode".to_string(),
        tier: "operational".to_string(),
        name: "a-shared-note".to_string(),
        body: Some("the body".to_string()),
        tags: Vec::new(),
        initiative: Some("t".to_string()),
        layer: None,
        properties: None,
    }
}

fn refused(r: Result<(u16, kaeru::NodeView), ApiError>) -> String {
    let e = r.expect_err("refused");
    assert_eq!(e.status(), 400);
    e.body().error
}

#[test]
fn a_node_can_be_retracted_and_then_reads_as_gone() {
    let mut store = open();
    let (created, view) = ingest_node_at(&mut store, &vocabulary(), node(ID), 100, 100).unwrap();
    assert_eq!(created, 201);
    assert_eq!(view.id, ID);

    assert!(get_node_at(&store, ID, 101).is_ok(), "present before");
    assert_eq!(retract_node_at(&mut store, ID, 101, 101).unwrap(), 204);
    let after = get_node_at(&store, ID, 101).expect_err("absent after");
    assert_eq!(after.status(), 404, "absent after");
    assert_eq!(after.body().error, "not found");
    assert!(get_node_at(&store, ID, 100).is_ok(), "and still read at an earlier moment");
}

#[test]
fn retraction_is_idempotent() {
    let mut store = open();
    assert_eq!(retract_node_at(&mut store, ID, 100, 100).unwrap(), 204, "never existed");
    ingest_node_at(&mut store, &vocabulary(), node(ID), 100, 100).unwrap();
    assert_eq!(retract_node_at(&mut store, ID, 101, 101).unwrap(), 204);
    assert_eq!(retract_node_at(&mut store, ID, 101, 101).unwrap(), 204, "and again");
    assert_eq!(retract_node_at(&mut store, ID, 102, 102).unwrap(), 204, "and later");
    assert!(get_node_at(&store, ID, 102).is_err());
}

#[test]
fn a_retraction_in_the_second_of_the_ingest_hides_nothing() {
    let mut store = open();
    ingest_node_at(&mut store, &vocabulary(), node(ID), 100, 100).unwrap();
    assert_eq!(retract_node_at(&mut store, ID, 100, 100).unwrap(), 204);
    assert!(get_node_at(&store, ID, 100).is_ok());
    assert_eq!(retract_node_at(&mut store, ID, 101, 101).unwrap(), 204);
    assert!(get_node_at(&store, ID, 101).is_err(), "a second later settles it");
}

#[test]
fn a_node_without_an_initiative_is_refused() {
    let mut store = open();
    let mut payload = node(ID);
    payload.initiative = None;
    let text = refused(ingest_node_at(&mut store, &vocabulary(), payload, 100, 100));
    assert!(text.contains("initiative is required"), "{text}");
    assert!(text.contains("cloud_recall"), "and says why: {text}");

    let mut payload = node(ID);
    payload.initiative = Some(" \n".to_string());
    assert_eq!(refused(ingest_node_at(&mut store, &vocabulary(), payload, 100, 100)), text);
    assert!(get_node_at(&store, ID, 100).is_err(), "nothing was written");
}

#[test]
fn re_posting_the_same_id_updates_in_place() {
    let mut store = open();
    ingest_node_at(&mut store, &vocabulary(), node(ID), 100, 100).unwrap();

    let mut fixed = node(ID);
    fixed.body = Some("the corrected body".to_string());
    assert_eq!(ingest_node_at(&mut store, &vocabulary(), fixed, 101, 101).unwrap().0, 201);

    let view = get_node_at(&store, ID, 101).unwrap();
    assert_eq!(view.body.as_deref(), Some("the corrected body"));
    let before = get_node_at(&store, ID, 100).unwrap();
    assert_eq!(before.body.as_deref(), Some("the body"));
}

#[test]
fn a_citations_url_survives_the_round_trip() {
    let mut store = open();
    let url = r#"{"url":"https://example.org/paper"}"#;
    let mut payload = node(ID);
    payload.node_type = "reference".to_string();
    payload.tier = "archival".to_string();
    payload.properties = Some(url.to_string());
    assert_eq!(ingest_node_at(&mut store, &vocabulary(), payload, 100, 100).unwrap().0, 201);

    let view = get_node_at(&store, ID, 100).unwrap();
    let properties: serde_json::Value =
        serde_json::from_str(view.properties.as_deref().unwrap()).unwrap();
    assert_eq!(
        properties["url"], "https://example.org/paper",
        "the field the node exists for came back: {view:?}"
    );
}

#[test]
fn an_omitted_properties_field_does_not_erase_what_is_stored() {
    let mut store = open();
    let mut first = node(ID);
    first.properties = Some(r#"{"url":"https://example.org/paper"}"#.to_string());
    ingest_node_at(&mut store, &vocabulary(), first, 100, 100).unwrap();

    ingest_node_at(&mut store, &vocabulary(), node(ID), 101, 101).unwrap();
    let view = get_node_at(&store, ID, 101).unwrap();
    let properties: serde_json::Value =
        serde_json::from_str(view.properties.as_deref().unwrap()).unwrap();
    assert_eq!(
        properties["url"], "https://example.org/paper",
        "the URL survived a push that never mentioned it: {view:?}"
    );
}

fn edge(weight: f64) -> EdgeIngestReq {
    EdgeIngestReq {
        src: ID.to_string(),
        dst: "01a03900-0000-7000-8000-000000000def".to_string(),
        edge_type: "causal".to_string(),
        weight: weight.to_bits() as i64,
    }
}

fn edge_name() -> EdgeRetractReq {
    EdgeRetractReq {
        src: ID.to_string(),
        dst: "01a03900-0000-7000-8000-000000000def".to_string(),
        edge_type: "causal".to_string(),
    }
}

#[test]
fn an_edge_can_be_retracted_without_destroying_its_endpoints() {
    const OTHER: &str = "01a03900-0000-7000-8000-000000000def";
    let mut store = open();
    ingest_node_at(&mut store, &vocabulary(), node(ID), 100, 100).unwrap();
    let mut second = node(OTHER);
    second.name = "the-other-note".to_string();
    ingest_node_at(&mut store, &vocabulary(), second, 100, 100).unwrap();

    let (status, view) = ingest_edge_at(&mut store, &vocabulary(), edge(0.9), 100).unwrap();
    assert_eq!(status, 201);
    assert_eq!((view.src.as_str(), view.dst.as_str()), (ID, OTHER));
    assert_eq!(view.edge_type, "causal");
    assert_eq!(f64::from_bits(view.weight as u64), 0.9);
    let listed = edges_in_initiative_at(&store, "t", 100).unwrap();
    assert_eq!(listed.len(), 1, "the edge is there");
    assert_eq!(f64::from_bits(listed[0].3 as u64), 0.9);

    assert_eq!(retract_edge_at(&mut store, &vocabulary(), &edge_name(), 101).unwrap(), 204);
    assert_eq!(
        edges_in_initiative_at(&store, "t", 101).unwrap().len(),
        0,
        "and gone, without the nodes"
    );
    assert_eq!(edges_in_initiative_at(&store, "t", 100).unwrap().len(), 1);
    assert!(get_node_at(&store, ID, 101).is_ok(), "the node outlives its edge");
}

#[test]
fn edge_retraction_is_idempotent() {
    let mut store = open();
    let req = EdgeRetractReq {
        src: ID.to_string(),
        dst: ID.to_string(),
        edge_type: "refers_to".to_string(),
    };
    assert_eq!(retract_edge_at(&mut store, &vocabulary(), &req, 100).unwrap(), 204);
    ingest_edge_at(&mut store, &vocabulary(), edge(1.0), 100).unwrap();
    for at in [101, 101, 102] {
        assert_eq!(retract_edge_at(&mut store, &vocabulary(), &edge_name(), at).unwrap(), 204);
    }
}

#[test]
fn retracting_a_node_takes_its_edges() {
    let mut store = open();
    ingest_node_at(&mut store, &vocabulary(), node(ID), 100, 100).unwrap();
    ingest_node_at(&mut store, &vocabulary(), node(&edge_name().dst), 100, 100).unwrap();
    ingest_edge_at(&mut store, &vocabulary(), edge(1.0), 100).unwrap();
    retract_node_at(&mut store, &edge_name().dst, 101, 101).unwrap();
    assert!(edges_in_initiative_at(&store, "t", 101).unwrap().is_empty());
    assert!(get_node_at(&store, ID, 101).is_ok());
}

#[test]
fn requests_outside_the_vocabulary_are_refused() {
    let mut store = open();
    let vocab = vocabulary();
    let mut req = node(ID);
    req.node_type = "poem".to_string();
    req.tier = "celestial".to_string();
    assert_eq!(refused(ingest_node_at(&mut store, &vocab, req, 1, 1)), "unknown node_type `poem`");
    let mut req = node(ID);
    req.tier = "celestial".to_string();
    assert_eq!(refused(ingest_node_at(&mut store, &vocab, req, 1, 1)), "unknown tier `celestial`");
    let mut req = node(ID);
    req.name = "  ".to_string();
    assert_eq!(refused(ingest_node_at(&mut store, &vocab, req, 1, 1)), "name must not be empty");
    let mut req = node(ID);
    req.layer = Some(" lukewarm ".to_string());
    assert_eq!(refused(ingest_node_at(&mut store, &vocab, req, 1, 1)), "unknown layer `lukewarm`");
    assert!(list_initiatives(&store).unwrap().is_empty());

    let mut req = edge(1.0);
    req.edge_type = "related_to".to_string();
    let e = ingest_edge_at(&mut store, &vocab, req, 1).expect_err("refused");
    assert_eq!((e.status(), e.body().error.as_str()), (400, "unknown edge_type `related_to`"));
    let mut req = edge_name();
    req.dst = " ".to_string();
    let e = retract_edge_at(&mut store, &vocab, &req, 1).expect_err("refused");
    assert_eq!((e.status(), e.body().error.as_str()), (400, "src and dst must not be empty"));
}

#[test]
fn a_stored_node_is_shared_and_warm_unless_told_otherwise() {
    let mut store = open();
    let mut req = node(ID);
    req.initiative = Some(" t ".to_string());
    req.layer = Some("  ".to_string());
    req.tags = texts(&["a", "б", ""]);
    req.body = None;
    let (_, view) = ingest_node_at(&mut store, &vocabulary(), req, 7, 7).unwrap();
    assert_eq!(view.visibility, "shared");
    assert_eq!(view.layer, "warm");
    assert_eq!(view.tags, texts(&["a", "б", ""]));
    assert_eq!(view.body, None);
    assert_eq!(view.properties, None);
    assert_eq!(list_initiatives(&store).unwrap(), texts(&["t"]));
    let mut req = node(ID);
    req.layer = Some(" frozen ".to_string());
    let (_, view) = ingest_node_at(&mut store, &vocabulary(), req, 8, 8).unwrap();
    assert_eq!(view.layer, "frozen");
}

#[test]
fn the_plain_handlers_ask_the_clock() {
    let mut store = open();
    nodes::ingest_node(&mut store, &vocabulary(), node(ID)).unwrap();
    assert_eq!(nodes::get_node(&store, ID).unwrap().name, "a-shared-note");
    assert_eq!(nodes::retract_node(&mut store, "nobody").unwrap(), 204);
    kaeru::api::edges::ingest_edge(&mut store, &vocabulary(), edge(1.0)).unwrap();
    assert_eq!(
        kaeru::api::edges::retract_edge(&mut store, &vocabulary(), &edge_name()).unwrap(),
        204
    );
}

#[test]
fn weights_are_held_to_their_range() {
    for w in [
        0.0, 1.0, 0.5, -0.0, -1.0, 2.0, 1.0000000000000002, f64::INFINITY, f64::NEG_INFINITY,
        f64::MIN_POSITIVE, -f64::MIN_POSITIVE, f64::MAX, f64::MIN, 5e-324, -5e-324,
    ] {
        let held = f64::from_bits(clamp_weight(w.to_bits() as i64) as u64);
        assert_eq!(held.to_bits(), w.clamp(0.0, 1.0).to_bits(), "{w}");
    }
    for bits in [f64::NAN.to_bits(), (-f64::NAN).to_bits(), 0x7ff0000000000001, u64::MAX] {
        assert_eq!(clamp_weight(bits as i64) as u64, bits, "no number stays what it is");
    }
    assert_eq!(f64::from_bits(default_weight() as u64), 1.0);
}

#[test]
fn health_reports_core_version() {
    let view = health();
    assert_eq!(view.status, "ok");
    assert_eq!(view.service, "kaeru-cloud");
    assert_eq!(view.core_version, version());
}

#[test]
fn the_gate_opens_to_the_token_alone() {
    assert!(authorised("", None).is_ok());
    assert!(authorised("", Some("anything")).is_ok());
    assert!(authorised("secret", Some("Bearer secret")).is_ok());
    for header in [None, Some("secret"), Some("bearer secret"), Some("Bearer secret "), Some("")] {
        let e = authorised("secret", header).expect_err("refused");
        assert_eq!(e.status(), 401);
        assert_eq!(e.body().error, "missing or invalid bearer token");
    }
}

fn field(schema: &str, field: &str) -> FieldDoc {
    FieldDoc { schema: schema.to_string(), field: field.to_string(), allowed: None }
}

#[test]
fn closed_vocabularies_come_from_the_core() {
    let vocab = vocabulary();
    let mut outline = CloudApiDoc::openapi();
    outline.fields = vec![
        field("NodeIngestReq", "node_type"),
        field("NodeIngestReq", "tier"),
        field("NodeIngestReq", "layer"),
        field("EdgeIngestReq", "edge_type"),
        field("EdgeRetractReq", "edge_type"),
        field("NodeView", "layer"),
        field("NodeIngestReq", "name"),
    ];
    finalise(&mut outline, &vocab);
    let some = |values: &[String]| -> Vec<Option<String>> {
        values.iter().map(|v| Some(v.clone())).collect()
    };
    assert_eq!(outline.fields[0].allowed, Some(some(&vocab.node_types)));
    assert_eq!(outline.fields[1].allowed, Some(some(&vocab.tiers)));
    let mut layers = some(&texts(&["core", "hot", "warm", "cold", "frozen"]));
    layers.push(None);
    assert_eq!(outline.fields[2].allowed, Some(layers), "an optional field accepts null too");
    assert_eq!(outline.fields[3].allowed, Some(some(&vocab.edge_types)));
    assert_eq!(outline.fields[4].allowed, Some(some(&vocab.edge_types)));
    assert_eq!(outline.fields[5].allowed, None);
    assert_eq!(outline.fields[6].allowed, None);
    assert_eq!(outline.schemes, texts(&[BEARER]));
}

#[test]
fn an_ingest_is_answered_with_what_now_reads() {
    let mut store = open();
    let mut later = node(ID);
    later.name = "later".to_string();
    ingest_node_at(&mut store, &vocabulary(), later, 10, 10).unwrap();
    // Stamped before what is there, the new version is written and the later one still reads.
    let (status, view) = ingest_node_at(&mut store, &vocabulary(), node(ID), 20, 5).unwrap();
    assert_eq!((status, view.name.as_str()), (201, "later"));
    assert_eq!(get_node_at(&store, ID, 5).unwrap().name, "a-shared-note");
    // A retraction of what reads now is stamped with its own second.
    assert_eq!(retract_node_at(&mut store, ID, 20, 15).unwrap(), 204);
    assert!(get_node_at(&store, ID, 14).is_ok());
    assert_eq!(get_node_at(&store, ID, 15).expect_err("gone").status(), 404);
    let gone = ingest_node_at(&mut store, &vocabulary(), node(ID), 20, 12).expect_err("hidden");
    assert_eq!(gone.status(), 404);
    assert_eq!(get_node_at(&store, ID, 12).unwrap().name, "a-shared-note");
}

#[test]
fn completing_a_document_twice_changes_nothing() {
    let vocab = vocabulary();
    let complete = |times: usize, schemes: &[&str]| {
        let mut outline = CloudApiDoc::openapi();
        outline.schemes = texts(schemes);
        let mut open = field("NodeView", "layer");
        open.allowed = Some(vec![Some("hot".to_string()), None]);
        outline.fields = vec![field("NodeIngestReq", "layer"), open];
        for _ in 0..times {
            finalise(&mut outline, &vocab);
        }
        outline
    };
    let once = complete(1, &[]);
    assert_eq!(once.schemes, texts(&[BEARER]));
    assert_eq!(complete(2, &[]), once);
    assert_eq!(complete(3, &[]), once);
    // A scheme that is there is not registered again, and others keep their places.
    assert_eq!(complete(1, &[BEARER, "basic"]).schemes, texts(&[BEARER, "basic"]));
    assert_eq!(complete(1, &["basic"]).schemes, texts(&["basic", BEARER]));
    assert_eq!(complete(2, &["basic"]), complete(1, &["basic"]));
    // A field whose vocabulary is open keeps its values, and so does the rest.
    assert_eq!(once.fields[1].allowed, Some(vec![Some("hot".to_string()), None]));
    assert_eq!(once.title, CloudApiDoc::openapi().title);
    assert_eq!(once.tags, CloudApiDoc::openapi().tags);
}

#[test]
fn the_document_says_what_the_service_is() {
    let outline = CloudApiDoc::openapi();
    assert_eq!(outline.title, "kaeru-cloud");
    assert!(outline.description.starts_with("The shared cloud tier of kaeru: a team's shared"));
    assert!(outline.description.ends_with("and retract with `unshare`."));
    let names: Vec<&str> = outline.tags.iter().map(|t| t.name.as_str()).collect();
    assert_eq!(names, ["health", "nodes", "edges", "initiatives"]);
    let edges = "Edges between shared nodes: ingest (an upsert) and retract.";
    let tag = TagDoc { name: "edges".to_string(), description: edges.to_string() };
    assert_eq!(outline.tags[2], tag);
    assert!(outline.schemes.is_empty());
    assert!(outline.fields.is_empty());
}

#[test]
fn layers_read_back() {
    for layer in [Layer::Core, Layer::Hot, Layer::Warm, Layer::Cold, Layer::Frozen] {
        assert_eq!(Layer::parse(layer.as_str()), Some(layer));
    }
    assert_eq!(Layer::parse("Warm"), None);
    assert_eq!(Layer::default(), Layer::Warm);
}
