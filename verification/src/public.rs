//! `GET /public/{dataset_id}`: the data address every issued token points
//! at. The ODRL policy is re-evaluated on every request, not only at START,
//! so that a time-bound or claim-bound constraint holds for the whole life
//! of the token. The decisions are here; reading the clock, evaluating the
//! policy and reading the file happen around them.

use vstd::prelude::*;
use crate::graph::{dcat_media_type, distribution_iri_of, ds_file_path, not_found_message, ConfigGraph};
use crate::handler::offers_file;
use crate::policy::{has_policy, policy_read, text_of, PolicyDocument};
use crate::rdf::{objects_of, Node, RdfTerm};
use crate::tokens::{TokenRecordView, TokenStore};

verus! {

pub const OK: u16 = 200;
pub const FORBIDDEN: u16 = 403;
pub const UNAUTHORIZED: u16 = 401;
pub const NOT_FOUND: u16 = 404;
pub const INTERNAL_SERVER_ERROR: u16 = 500;

/// An HTTP answer other than the file itself: a status and a text body.
#[derive(Debug)]
pub struct HttpReply {
    pub status: u16,
    pub body: String,
}

/// What the public endpoint serves once a request is allowed: the file at
/// this path, with this media type.
#[derive(Debug)]
pub struct FileServe {
    pub file_path: String,
    pub media_type: String,
}

/// The answer of a token check: `None` when the token is live and was
/// issued for this dataset; otherwise the status and body of the refusal.
pub open spec fn token_check(tokens: Map<Seq<char>, TokenRecordView>, token: Seq<char>, dataset_id: Seq<char>)
    -> Option<(u16, Seq<char>)>
{
    if !tokens.contains_key(token) {
        Some((UNAUTHORIZED, "invalid or expired token"@))
    } else if tokens[token].dataset_id != dataset_id {
        Some((FORBIDDEN, "token not valid for this dataset"@))
    } else {
        None
    }
}

/// Checks the bearer token, then reads the dataset's policy for
/// evaluation: 401 for a token the store does not hold, 403 for one issued
/// for another dataset, 500 with the `NotFound` message when the graph
/// holds no policy for the dataset; otherwise the policy, read back.
pub fn authorize(tokens: &TokenStore, graph: &ConfigGraph, token: &str, dataset_id: &str)
    -> (r: Result<PolicyDocument, HttpReply>)
    ensures
        token_check(tokens@, token@, dataset_id@) matches Some((status, body)) ==>
            r matches Err(reply) && reply.status == status && reply.body@ == body,
        token_check(tokens@, token@, dataset_id@) is None ==> (r is Ok <==> has_policy(graph.triples(), dataset_id@)),
        token_check(tokens@, token@, dataset_id@) is None ==> match r {
            Ok(doc) => policy_read(graph.triples(), dataset_id@, doc@),
            Err(reply) => reply.status == INTERNAL_SERVER_ERROR && reply.body@ == not_found_message(dataset_id@),
        },
{
    let record = match tokens.lookup(token) {
        Some(record) => record,
        None => {
            return Err(HttpReply { status: UNAUTHORIZED, body: String::from_str("invalid or expired token") });
        },
    };
    let wanted = String::from_str(dataset_id);
    if record.dataset_id != wanted {
        return Err(HttpReply { status: FORBIDDEN, body: String::from_str("token not valid for this dataset") });
    }
    match graph.policy_jsonld(dataset_id) {
        Ok(doc) => Ok(doc),
        Err(e) => Err(HttpReply { status: INTERNAL_SERVER_ERROR, body: e.message() }),
    }
}

/// The graph holds a media type with text for the dataset's distribution.
pub open spec fn has_media_type(graph: &ConfigGraph, dataset_id: Seq<char>) -> bool {
    exists|o: RdfTerm| objects_of(graph.triples(), Node::Iri(distribution_iri_of(dataset_id)), dcat_media_type()).contains(o)
        && text_of(o) is Some
}

/// What evaluating the policy gave: ingesting it failed with this message,
/// or the engine denied the request with this reason, or it allowed it.
#[derive(Debug)]
pub enum PolicyOutcome {
    IngestFailed(String),
    Denied(String),
    Allowed,
}

/// Decides what an evaluated request gets: 500 when the policy could not be
/// ingested, 403 with the engine's reason when it was denied, and once
/// allowed, the configured file with its media type (or
/// `application/octet-stream` when the graph holds none), or 404 with the
/// `NotFound` message when the graph has no file path for the dataset.
pub fn serve_decision(graph: &ConfigGraph, dataset_id: &str, outcome: PolicyOutcome) -> (r: Result<FileServe, HttpReply>)
    ensures
        outcome matches PolicyOutcome::IngestFailed(e) ==> r matches Err(reply)
            && reply.status == INTERNAL_SERVER_ERROR && reply.body@ == "policy ingestion failed: "@ + e@,
        outcome matches PolicyOutcome::Denied(reason) ==> r matches Err(reply)
            && reply.status == FORBIDDEN && reply.body@ == "policy denied this request: "@ + reason@,
        outcome is Allowed ==> (r is Ok <==> offers_file(graph.triples(), dataset_id@)),
        outcome is Allowed ==> match r {
            Ok(serve) => {
                &&& exists|o: RdfTerm| objects_of(graph.triples(), Node::Iri(distribution_iri_of(dataset_id@)),
                    ds_file_path()).contains(o) && text_of(o) == Some(serve.file_path@)
                &&& if has_media_type(graph, dataset_id@) {
                    exists|o: RdfTerm| objects_of(graph.triples(), Node::Iri(distribution_iri_of(dataset_id@)),
                        dcat_media_type()).contains(o) && text_of(o) == Some(serve.media_type@)
                } else {
                    serve.media_type@ == "application/octet-stream"@
                }
            },
            Err(reply) => reply.status == NOT_FOUND && reply.body@ == not_found_message(dataset_id@),
        },
{
    match outcome {
        PolicyOutcome::IngestFailed(e) => Err(HttpReply {
            status: INTERNAL_SERVER_ERROR,
            body: String::from_str("policy ingestion failed: ").concat(e.as_str()),
        }),
        PolicyOutcome::Denied(reason) => Err(HttpReply {
            status: FORBIDDEN,
            body: String::from_str("policy denied this request: ").concat(reason.as_str()),
        }),
        PolicyOutcome::Allowed => {
            let file_path = match graph.file_path(dataset_id) {
                Ok(path) => path,
                Err(e) => {
                    return Err(HttpReply { status: NOT_FOUND, body: e.message() });
                },
            };
            let media_type = match graph.media_type(dataset_id) {
                Ok(m) => m,
                Err(_) => String::from_str("application/octet-stream"),
            };
            Ok(FileServe { file_path, media_type })
        },
    }
}

/// The 500 answer when the allowed file cannot be read.
pub fn read_failure(file_path: &str, error: &str) -> (reply: HttpReply)
    ensures
        reply.status == INTERNAL_SERVER_ERROR,
        reply.body@ == "failed to read "@ + file_path@ + ": "@ + error@,
{
    HttpReply {
        status: INTERNAL_SERVER_ERROR,
        body: String::from_str("failed to read ").concat(file_path).concat(": ").concat(error),
    }
}

/// A token whose flow was terminated is refused with 401, whatever the
/// dataset: revoking a flow takes every token issued for it out of the
/// store.
pub proof fn law_revoked_token_is_refused(before: Map<Seq<char>, TokenRecordView>,
    after: Map<Seq<char>, TokenRecordView>, token: Seq<char>, flow_id: Seq<char>, dataset_id: Seq<char>)
    requires
        before.contains_key(token),
        before[token].flow_id == flow_id,
        after == before.restrict(before.dom().filter(|k: Seq<char>| before[k].flow_id != flow_id)),
    ensures
        token_check(after, token, dataset_id) == Some((UNAUTHORIZED, "invalid or expired token"@)),
{
}

/// A live token issued for one dataset is refused with 403 on any other.
pub proof fn law_token_bound_to_dataset(tokens: Map<Seq<char>, TokenRecordView>, token: Seq<char>,
    dataset_id: Seq<char>)
    requires
        tokens.contains_key(token),
        tokens[token].dataset_id != dataset_id,
    ensures
        token_check(tokens, token, dataset_id) == Some((FORBIDDEN, "token not valid for this dataset"@)),
{
}

} // verus!
