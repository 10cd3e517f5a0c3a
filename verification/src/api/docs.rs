//! What is published of the REST surface: its gate, and the closed vocabularies of its requests.

use super::nodes::{is_layer, Layer};
use super::{accepts, Vocabulary, VocabularyV};
use crate::substrate::texts_view;
use crate::text::same;
use vstd::prelude::*;

verus! {

/// Name of the security scheme that every gated operation refers to.
pub const BEARER: &'static str = "bearer";

/// Tag of the liveness probe.
pub const HEALTH_TAG: &'static str = "health";

/// Tag of the node endpoints.
pub const NODES_TAG: &'static str = "nodes";

/// Tag of the edge endpoints.
pub const EDGES_TAG: &'static str = "edges";

/// Tag of the initiative endpoints.
pub const INITIATIVES_TAG: &'static str = "initiatives";

/// A field of a published schema, with the values it accepts, if they are closed. `None` among the
/// values stands for null.
#[derive(Debug, PartialEq, Eq)]
pub struct FieldDoc {
    pub schema: String,
    pub field: String,
    pub allowed: Option<Vec<Option<String>>>,
}

/// A group of endpoints, and what it is for.
#[derive(Debug, PartialEq, Eq)]
pub struct TagDoc {
    pub name: String,
    pub description: String,
}

/// A published document, as far as it is not derived from the paths.
#[derive(Debug, PartialEq, Eq)]
pub struct Outline {
    pub title: String,
    pub description: String,
    pub tags: Vec<TagDoc>,
    /// Names of the bearer-token schemes.
    pub schemes: Vec<String>,
    /// The fields of the schemas.
    pub fields: Vec<FieldDoc>,
}

/// The published document of the service.
#[derive(Debug, Clone, Copy, PartialEq, Eq, Structural)]
pub struct CloudApiDoc;

/// The name of the service.
pub const TITLE: &'static str = "kaeru-cloud";

/// What the service says of itself.
pub const DESCRIPTION: &'static str =
    "The shared cloud tier of kaeru: a team's shared nodes and the edges between them, behind one bearer token. Local daemons push with `share`, read with `pull` and `cloud_recall`, and retract with `unshare`.";

pub const HEALTH_DESCRIPTION: &'static str =
    "Liveness, and the running kaeru-core version a daemon checks for skew.";

pub const NODES_DESCRIPTION: &'static str =
    "Shared nodes: ingest (an upsert under the preserved id), read, retract.";

pub const EDGES_DESCRIPTION: &'static str =
    "Edges between shared nodes: ingest (an upsert) and retract.";

pub const INITIATIVES_DESCRIPTION: &'static str =
    "Discovery: what the cloud holds, per initiative, and team-wide rename / delete.";

fn tag(name: &str, description: &str) -> (r: TagDoc)
    ensures
        r.name@ == name@,
        r.description@ == description@,
{
    TagDoc { name: name.to_owned(), description: description.to_owned() }
}

pub open spec fn tags_view(tags: Seq<TagDoc>) -> Seq<(Seq<char>, Seq<char>)> {
    tags.map_values(|t: TagDoc| (t.name@, t.description@))
}

impl CloudApiDoc {
    /// The document before any path is known: what the service says of itself, and its groups of
    /// endpoints.
    pub fn openapi() -> (r: Outline)
        ensures
            r.title@ == TITLE@,
            r.description@ == DESCRIPTION@,
            tags_view(r.tags@) == seq![
                (HEALTH_TAG@, HEALTH_DESCRIPTION@),
                (NODES_TAG@, NODES_DESCRIPTION@),
                (EDGES_TAG@, EDGES_DESCRIPTION@),
                (INITIATIVES_TAG@, INITIATIVES_DESCRIPTION@),
            ],
            r.schemes@.len() == 0,
            r.fields@.len() == 0,
    {
        let tags = vec![
            tag(HEALTH_TAG, HEALTH_DESCRIPTION),
            tag(NODES_TAG, NODES_DESCRIPTION),
            tag(EDGES_TAG, EDGES_DESCRIPTION),
            tag(INITIATIVES_TAG, INITIATIVES_DESCRIPTION),
        ];
        assert(tags_view(tags@) =~= seq![
            (HEALTH_TAG@, HEALTH_DESCRIPTION@),
            (NODES_TAG@, NODES_DESCRIPTION@),
            (EDGES_TAG@, EDGES_DESCRIPTION@),
            (INITIATIVES_TAG@, INITIATIVES_DESCRIPTION@),
        ]);
        Outline {
            title: TITLE.to_owned(),
            description: DESCRIPTION.to_owned(),
            tags,
            schemes: Vec::new(),
            fields: Vec::new(),
        }
    }
}

/// A published document, as a mathematical value.
#[verifier::ext_equal]
pub struct OutlineV {
    pub title: Seq<char>,
    pub description: Seq<char>,
    pub tags: Seq<(Seq<char>, Seq<char>)>,
    pub schemes: Seq<Seq<char>>,
    pub fields: Seq<FieldV>,
}

/// A field of a published schema, as a mathematical value.
#[verifier::ext_equal]
pub struct FieldV {
    pub schema: Seq<char>,
    pub field: Seq<char>,
    pub allowed: Option<Seq<Option<Seq<char>>>>,
}

impl View for FieldDoc {
    type V = FieldV;

    open spec fn view(&self) -> FieldV {
        FieldV { schema: self.schema@, field: self.field@, allowed: allowed_view(self.allowed) }
    }
}

impl View for Outline {
    type V = OutlineV;

    open spec fn view(&self) -> OutlineV {
        OutlineV {
            title: self.title@,
            description: self.description@,
            tags: tags_view(self.tags@),
            schemes: texts_view(self.schemes@),
            fields: fields_view(self.fields@),
        }
    }
}

pub open spec fn fields_view(fields: Seq<FieldDoc>) -> Seq<FieldV> {
    fields.map_values(|f: FieldDoc| f@)
}

pub open spec fn values_view(values: Seq<Option<String>>) -> Seq<Option<Seq<char>>> {
    values.map_values(|v: Option<String>| crate::substrate::optional_text(v))
}

pub open spec fn allowed_view(allowed: Option<Vec<Option<String>>>) -> Option<
    Seq<Option<Seq<char>>>,
> {
    match allowed {
        Some(values) => Some(values_view(values@)),
        None => None,
    }
}

/// The layers, in the order in which they are published.
pub open spec fn layers() -> Seq<Seq<char>> {
    seq!["core"@, "hot"@, "warm"@, "cold"@, "frozen"@]
}

/// The closed vocabulary of a field, and whether it accepts null too.
pub open spec fn closed_vocabulary(
    vocab: VocabularyV,
    schema: Seq<char>,
    field: Seq<char>,
) -> Option<(Seq<Seq<char>>, bool)> {
    if schema == "NodeIngestReq"@ && field == "node_type"@ {
        Some((vocab.node_types, false))
    } else if schema == "NodeIngestReq"@ && field == "tier"@ {
        Some((vocab.tiers, false))
    } else if schema == "NodeIngestReq"@ && field == "layer"@ {
        Some((layers(), true))
    } else if (schema == "EdgeIngestReq"@ || schema == "EdgeRetractReq"@) && field == "edge_type"@ {
        Some((vocab.edge_types, false))
    } else {
        None
    }
}

/// The published values of a vocabulary. An optional field still accepts null: values without it
/// would tell a client that leaving the field out by null is invalid.
pub open spec fn published(values: Seq<Seq<char>>, nullable: bool) -> Seq<Option<Seq<char>>> {
    let texts = values.map_values(|v: Seq<char>| Some(v));
    if nullable {
        texts.push(None)
    } else {
        texts
    }
}

/// A field once the document is complete.
pub open spec fn completed_field(vocab: VocabularyV, f: FieldV) -> FieldV {
    match closed_vocabulary(vocab, f.schema, f.field) {
        Some((values, nullable)) => FieldV { allowed: Some(published(values, nullable)), ..f },
        None => f,
    }
}

/// A document once it is complete: the bearer scheme is registered under its name, the closed
/// vocabularies are published, and all else is as it was.
pub open spec fn completed_outline(vocab: VocabularyV, o: OutlineV) -> OutlineV {
    OutlineV {
        schemes: if o.schemes.contains(BEARER@) {
            o.schemes
        } else {
            o.schemes.push(BEARER@)
        },
        fields: o.fields.map_values(|f: FieldV| completed_field(vocab, f)),
        ..o
    }
}

/// The layers, in the order in which they are published.
pub fn layer_names() -> (r: Vec<String>)
    ensures
        texts_view(r@) == layers(),
{
    let r = vec![
        "core".to_owned(),
        "hot".to_owned(),
        "warm".to_owned(),
        "cold".to_owned(),
        "frozen".to_owned(),
    ];
    assert(texts_view(r@) =~= layers());
    r
}

/// The published values of a vocabulary.
fn publish(values: &Vec<String>, nullable: bool) -> (r: Vec<Option<String>>)
    ensures
        values_view(r@) == published(texts_view(values@), nullable),
{
    let ghost texts = texts_view(values@);
    let ghost want = texts.map_values(|v: Seq<char>| Some(v));
    let mut out: Vec<Option<String>> = Vec::new();
    let mut i: usize = 0;
    while i < values.len()
        invariant
            i <= values@.len(),
            texts == texts_view(values@),
            want == texts.map_values(|v: Seq<char>| Some(v)),
            values_view(out@) == want.take(i as int),
        decreases values.len() - i,
    {
        let ghost before = values_view(out@);
        out.push(Some(values[i].clone()));
        assert(values_view(out@) =~= before.push(Some(values@[i as int]@)));
        assert(want.take(i + 1) =~= before.push(want[i as int]));
        i += 1;
    }
    assert(want.take(i as int) =~= want);
    if nullable {
        let ghost before = values_view(out@);
        out.push(None);
        assert(values_view(out@) =~= before.push(None));
    }
    out
}

/// The published values of a field, if its vocabulary is closed.
fn publish_field(vocab: &Vocabulary, schema: &str, field: &str) -> (r: Option<Vec<Option<String>>>)
    ensures
        allowed_view(r) == (match closed_vocabulary(vocab@, schema@, field@) {
            Some((values, nullable)) => Some(published(values, nullable)),
            None => None,
        }),
{
    if same(schema, "NodeIngestReq") {
        if same(field, "node_type") {
            return Some(publish(&vocab.node_types, false));
        }
        if same(field, "tier") {
            return Some(publish(&vocab.tiers, false));
        }
        if same(field, "layer") {
            return Some(publish(&layer_names(), true));
        }
    }
    if (same(schema, "EdgeIngestReq") || same(schema, "EdgeRetractReq")) && same(
        field,
        "edge_type",
    ) {
        return Some(publish(&vocab.edge_types, false));
    }
    None
}

/// Completes the document once the router has added its paths and schemas: registers the bearer
/// scheme, unless it is there, and publishes the closed vocabularies as enumerations, from the lists
/// by which requests are checked.
pub fn finalise(outline: &mut Outline, vocab: &Vocabulary)
    ensures
        final(outline)@ == completed_outline(vocab@, old(outline)@),
{
    let ghost before = outline@;
    let ghost done = completed_outline(vocab@, before);
    if !accepts(&outline.schemes, BEARER) {
        outline.schemes.push(BEARER.to_owned());
        assert(texts_view(outline.schemes@) =~= before.schemes.push(BEARER@));
    }
    let mut i: usize = 0;
    while i < outline.fields.len()
        invariant
            i <= outline.fields@.len(),
            outline.fields@.len() == before.fields.len(),
            done == completed_outline(vocab@, before),
            outline@.title == before.title,
            outline@.description == before.description,
            outline@.tags == before.tags,
            outline@.schemes == done.schemes,
            forall|j: int| 0 <= j < i ==> (#[trigger] outline.fields@[j])@ == done.fields[j],
            forall|j: int|
                i <= j < before.fields.len() ==> (#[trigger] outline.fields@[j])@
                    == before.fields[j],
        decreases outline.fields.len() - i,
    {
        assert(outline.fields@[i as int]@ == before.fields[i as int]);
        let schema = outline.fields[i].schema.clone();
        let field = outline.fields[i].field.clone();
        if let Some(values) = publish_field(vocab, schema.as_str(), field.as_str()) {
            outline.fields.set(i, FieldDoc { schema, field, allowed: Some(values) });
        }
        assert(outline.fields@[i as int]@ == done.fields[i as int]);
        i += 1;
    }
    assert(outline@.fields =~= done.fields);
}

/// Completing a completed document changes nothing: neither its schemes nor the values of any
/// field.
pub proof fn completing_is_idempotent(vocab: VocabularyV, o: OutlineV)
    ensures
        completed_outline(vocab, completed_outline(vocab, o)) == completed_outline(vocab, o),
        completed_outline(vocab, o).schemes.contains(BEARER@),
{
    let once = completed_outline(vocab, o);
    let twice = completed_outline(vocab, once);
    if !o.schemes.contains(BEARER@) {
        assert(once.schemes.last() == BEARER@);
    }
    assert forall|i: int| 0 <= i < o.fields.len() implies twice.fields[i] == once.fields[i] by {
        assert(once.fields[i] == completed_field(vocab, o.fields[i]));
        assert(twice.fields[i] == completed_field(vocab, once.fields[i]));
    }
    assert(twice.fields =~= once.fields);
}

/// Completing touches only the closed fields: every other field keeps the values it had.
pub proof fn completing_leaves_the_rest(vocab: VocabularyV, o: OutlineV, i: int)
    requires
        0 <= i < o.fields.len(),
        closed_vocabulary(vocab, o.fields[i].schema, o.fields[i].field) is None,
    ensures
        completed_outline(vocab, o).fields[i] == o.fields[i],
{
}

/// Only the optional layer accepts null.
pub proof fn only_the_layer_is_nullable(
    vocab: VocabularyV,
    schema: Seq<char>,
    field: Seq<char>,
    values: Seq<Seq<char>>,
    nullable: bool,
)
    requires
        closed_vocabulary(vocab, schema, field) == Some((values, nullable)),
    ensures
        published(values, nullable).contains(None) <==> schema == "NodeIngestReq"@ && field
            == "layer"@,
{
    let out = published(values, nullable);
    if nullable {
        assert(out.last() is None);
    } else {
        assert forall|i: int| 0 <= i < out.len() implies out[i] is Some by {}
    }
    reveal_strlit("layer");
    reveal_strlit("tier");
    reveal_strlit("node_type");
    assert("layer"@.len() != "tier"@.len() && "layer"@.len() != "node_type"@.len());
}

/// What is published is what is accepted: a value stands among the published ones of a closed
/// field exactly if a request is not refused for it.
pub proof fn the_published_values_are_the_accepted_ones(
    vocab: VocabularyV,
    value: Seq<char>,
    values: Seq<Seq<char>>,
    nullable: bool,
)
    ensures
        published(values, nullable).contains(Some(value)) <==> values.contains(value),
        closed_vocabulary(vocab, "NodeIngestReq"@, "node_type"@) == Some(
            (vocab.node_types, false),
        ),
        closed_vocabulary(vocab, "NodeIngestReq"@, "tier"@) == Some((vocab.tiers, false)),
        closed_vocabulary(vocab, "NodeIngestReq"@, "layer"@) == Some((layers(), true)),
        closed_vocabulary(vocab, "EdgeIngestReq"@, "edge_type"@) == Some((vocab.edge_types, false)),
        closed_vocabulary(vocab, "EdgeRetractReq"@, "edge_type"@) == Some(
            (vocab.edge_types, false),
        ),
        layers().contains(value) <==> is_layer(value),
{
    let out = published(values, nullable);
    if out.contains(Some(value)) {
        let i = out.index_of(Some(value));
        assert(values[i] == value);
    }
    if values.contains(value) {
        let i = values.index_of(value);
        assert(out[i] == Some(value));
    }
    reveal_strlit("node_type");
    reveal_strlit("tier");
    reveal_strlit("layer");
    reveal_strlit("NodeIngestReq");
    reveal_strlit("EdgeIngestReq");
    reveal_strlit("EdgeRetractReq");
    assert("node_type"@.len() == 9 && "tier"@.len() == 4 && "layer"@.len() == 5);
    assert("EdgeIngestReq"@[0] == 'E' && "EdgeRetractReq"@[0] == 'E' && "NodeIngestReq"@[0] == 'N');
    let all = layers();
    if all.contains(value) {
        assert(Layer::Core.text() == all[0] && Layer::Hot.text() == all[1] && Layer::Warm.text()
            == all[2] && Layer::Cold.text() == all[3] && Layer::Frozen.text() == all[4]);
    }
    if is_layer(value) {
        assert(all[0] == "core"@ && all[1] == "hot"@ && all[2] == "warm"@ && all[3] == "cold"@
            && all[4] == "frozen"@);
    }
}

} // verus!
