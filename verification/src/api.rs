//! The rules of the REST surface: what a request must hold, what it does to the store, and what it
//! is answered.

use crate::store::StoreError;
use crate::substrate::texts_view;
use crate::text::{join, same};
use vstd::prelude::*;

pub mod docs;
pub mod edges;
pub mod health;
pub mod nodes;

verus! {

/// Why a request was refused.
#[derive(Debug)]
pub enum ApiError {
    /// The request cannot be carried out; the text says what to change.
    BadRequest(String),
    /// The bearer token is missing or wrong.
    Unauthorized,
    /// What the request names does not exist.
    NotFound,
    /// The database failed.
    Internal(cozo::Error),
}

/// The body of every error response, 400, 401, 404 and 500 alike.
///
/// A 500 never carries internal detail: failures of the database are flattened to
/// `"internal error"`.
#[derive(Debug, PartialEq, Eq)]
pub struct ErrorBody {
    /// Human-readable reason. For a 400 it says what to change.
    pub error: String,
}

impl ApiError {
    /// The status code of the response.
    pub open spec fn code(&self) -> u16 {
        match *self {
            ApiError::BadRequest(_) => 400,
            ApiError::Unauthorized => 401,
            ApiError::NotFound => 404,
            ApiError::Internal(_) => 500,
        }
    }

    /// The reason in the body of the response.
    pub open spec fn reason(&self) -> Seq<char> {
        match *self {
            ApiError::BadRequest(why) => why@,
            ApiError::Unauthorized => "missing or invalid bearer token"@,
            ApiError::NotFound => "not found"@,
            ApiError::Internal(_) => "internal error"@,
        }
    }

    /// The status code of the response.
    pub fn status(&self) -> (r: u16)
        ensures
            r == self.code(),
    {
        match self {
            ApiError::BadRequest(_) => 400,
            ApiError::Unauthorized => 401,
            ApiError::NotFound => 404,
            ApiError::Internal(_) => 500,
        }
    }

    /// The body of the response.
    pub fn body(&self) -> (r: ErrorBody)
        ensures
            r.error@ == self.reason(),
    {
        let error = match self {
            ApiError::BadRequest(why) => why.clone(),
            ApiError::Unauthorized => "missing or invalid bearer token".to_owned(),
            ApiError::NotFound => "not found".to_owned(),
            ApiError::Internal(_) => "internal error".to_owned(),
        };
        ErrorBody { error }
    }
}

/// How a failure of the store is answered.
pub open spec fn answered(e: StoreError) -> ApiError {
    match e {
        StoreError::Invalid(why) => ApiError::BadRequest(why),
        StoreError::NotFound(_) => ApiError::NotFound,
        StoreError::Substrate(e) => ApiError::Internal(e),
    }
}

/// Answers a failure of the store.
pub fn answer(e: StoreError) -> (r: ApiError)
    ensures
        r == answered(e),
{
    match e {
        StoreError::Invalid(why) => ApiError::BadRequest(why),
        StoreError::NotFound(_) => ApiError::NotFound,
        StoreError::Substrate(e) => ApiError::Internal(e),
    }
}

/// Whether a request may pass: the service asks for no token, or the request bears it.
pub open spec fn passes(token: Seq<char>, header: Option<Seq<char>>) -> bool {
    token.len() == 0 || header == Some("Bearer "@ + token)
}

/// Checks the `Authorization` header of a request.
pub fn authorised(token: &str, header: Option<&str>) -> (r: Result<(), ApiError>)
    ensures
        r is Ok <==> passes(token@, crate::nodes::optional_name(header)),
        r matches Err(e) ==> e is Unauthorized,
{
    if token.is_empty() {
        return Ok(());
    }
    match header {
        Some(given) => {
            let wanted = join("Bearer ", token);
            if same(given, wanted.as_str()) {
                Ok(())
            } else {
                Err(ApiError::Unauthorized)
            }
        },
        None => Err(ApiError::Unauthorized),
    }
}

/// A failure of the database is answered with 500 and no detail.
pub proof fn internal_detail_stays_inside(e: StoreError)
    requires
        e is Substrate,
    ensures
        answered(e).code() == 500,
        answered(e).reason() == "internal error"@,
{
}

// ---- closed vocabularies -----------------------------------------------------------

/// The values that the closed fields of requests accept.
#[derive(Debug, PartialEq, Eq)]
pub struct Vocabulary {
    pub node_types: Vec<String>,
    pub tiers: Vec<String>,
    pub edge_types: Vec<String>,
}

/// The values that the closed fields of requests accept, as mathematical values.
#[verifier::ext_equal]
pub struct VocabularyV {
    pub node_types: Seq<Seq<char>>,
    pub tiers: Seq<Seq<char>>,
    pub edge_types: Seq<Seq<char>>,
}

impl View for Vocabulary {
    type V = VocabularyV;

    open spec fn view(&self) -> VocabularyV {
        VocabularyV {
            node_types: texts_view(self.node_types@),
            tiers: texts_view(self.tiers@),
            edge_types: texts_view(self.edge_types@),
        }
    }
}

/// Whether a value is among those accepted.
pub fn accepts(values: &Vec<String>, value: &str) -> (r: bool)
    ensures
        r == texts_view(values@).contains(value@),
{
    let ghost texts = texts_view(values@);
    let mut i: usize = 0;
    while i < values.len()
        invariant
            i <= values@.len(),
            texts == texts_view(values@),
            forall|j: int| 0 <= j < i ==> #[trigger] texts[j] != value@,
        decreases values.len() - i,
    {
        assert(texts[i as int] == values@[i as int]@);
        if same(values[i].as_str(), value) {
            assert(texts.contains(value@));
            return true;
        }
        i += 1;
    }
    false
}

/// Why a value outside a closed vocabulary is refused.
pub open spec fn unknown_message(field: Seq<char>, value: Seq<char>) -> Seq<char> {
    "unknown "@ + field + " `"@ + value + "`"@
}

/// The refusal of a value outside a closed vocabulary.
pub(crate) fn unknown(field: &str, value: &str) -> (r: String)
    ensures
        r@ == unknown_message(field@, value@),
{
    let named = join(join("unknown ", field).as_str(), " `");
    join(join(named.as_str(), value).as_str(), "`")
}

} // verus!
