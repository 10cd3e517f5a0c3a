//! Kaeru: a graph memory whose nodes are grouped by initiative.
//!
//! A store keeps nodes and edges in an embedded database. Every write is stamped with a whole
//! second, and nothing is erased: what is forgotten stops reading from then on, while a read of an
//! earlier moment still finds it. Initiatives are names under which nodes are attached.
//!
//! Each verb comes twice: as a function of the moment it happens at, whose contract is exact, and
//! under the plain name, which asks the clock.

pub mod api;
pub mod audit;
pub mod board;
pub mod briefs;
pub mod clock;
pub mod dates;
pub mod edges;
pub mod invariants;
pub mod laws;
pub mod listing;
pub mod model;
pub mod mutate;
pub mod nodes;
pub mod open_work;
pub mod order;
pub mod policy;
pub mod recall;
pub mod rows;
pub mod spelling;
pub mod store;
pub mod substrate;
pub mod tags;
pub mod text;

pub use api::docs::{finalise, CloudApiDoc};
pub use api::edges::{EdgeIngestReq, EdgeRetractReq, EdgeView};
pub use api::health::{health, version, HealthView};
pub use api::nodes::{Layer, NodeIngestReq, NodeView};
pub use api::{ApiError, ErrorBody, Vocabulary};
pub use audit::{audit_trail, AuditEntry};
pub use briefs::{node_brief_by_id, NodeBrief};
pub use edges::link;
pub use listing::{count_nodes_in_initiative, edges_in_initiative, nodes_in_initiative, page};
pub use mutate::attach::{attach_node, AttachStats};
pub use mutate::delete::{delete_initiative, delete_initiative_impact, DeleteStats};
pub use mutate::merge::{merge_initiative, MergeStats};
pub use mutate::rename::{rename_initiative, RenameStats};
pub use nodes::{forget, read_node_full, upsert_node, NodeFull};
pub use open_work::{due_reminders, open_claims, open_tasks, DueReminder, OpenTask};
pub use policy::{get_share_policy, set_share_policy, SharePolicy};
pub use recall::duplicates::near_duplicate_initiatives;
pub use recall::list_initiatives;
pub use recall::suggest::suggest_initiative;
pub use store::{BoardStatus, Store, StoreError};
pub use substrate::NodeRecord;
