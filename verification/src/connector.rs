//! The configuration graph seen through a Contreforts-style connector
//! interface: one entity kind of this project's own (a file exposed as a
//! dataspace data offer), read back as a document of its file path, media
//! type and ODRL policy. The connector only reads; pushing is refused.

use vstd::prelude::*;
use std::sync::Arc;
use crate::graph::{dcat_media_type, distribution_iri_of, ds_file_path, not_found_message, ConfigGraph};
use crate::policy::{has_policy, policy_read, text_of, PolicyDocument};
use crate::rdf::{objects_of, Node, RdfTerm};

verus! {

/// The one entity kind this connector recognises: a file exposed as a
/// dataspace data offer.
pub const DATA_OFFER_KIND: &'static str = "ds-sql-dps-rs:data-offer";

/// The offer this connector's `pull` reads: the graph holds one offer, under
/// this id.
pub const PRIMARY_OFFER_ID: &'static str = "primary";

/// The connector's source name.
pub const SOURCE_NAME: &'static str = "ds-sql-dps-rs";

/// Why a connector operation failed.
#[derive(Debug)]
pub enum ConnectorError {
    /// The connector does not handle this entity kind.
    UnsupportedKind { connector: String, kind: String },
    /// The connector does not support this operation.
    Unsupported { connector: String, operation: String },
    /// Reading the configuration graph failed.
    Api { message: String },
}

/// The fields of a data-offer document: `filePath`, `mediaType` and
/// `policy`.
#[derive(Debug)]
pub struct DocumentFields {
    pub file_path: String,
    pub media_type: String,
    pub policy: PolicyDocument,
}

/// One entity as the connector hands it out.
#[derive(Debug)]
pub struct Document {
    pub name: String,
    pub remote_id: String,
    pub kind: String,
    pub source: String,
    pub fields: DocumentFields,
}

/// A connector over a configuration graph.
pub struct FileOfferConnector {
    graph: Arc<ConfigGraph>,
}

/// The fields a read of the graph answers for `remote_id`.
pub open spec fn fields_read(c: &ConfigGraph, remote_id: Seq<char>, f: DocumentFields) -> bool {
    let dist = Node::Iri(distribution_iri_of(remote_id));
    &&& exists|o: RdfTerm| objects_of(c.triples(), dist, ds_file_path()).contains(o) && text_of(o) == Some(f.file_path@)
    &&& exists|o: RdfTerm| objects_of(c.triples(), dist, dcat_media_type()).contains(o) && text_of(o) == Some(f.media_type@)
    &&& policy_read(c.triples(), remote_id, f.policy@)
}

/// The graph holds everything a read of data offer `remote_id` needs: a
/// file path and a media type with text for its distribution, and a policy.
pub open spec fn offer_readable(c: &ConfigGraph, remote_id: Seq<char>) -> bool {
    let dist = Node::Iri(distribution_iri_of(remote_id));
    &&& exists|o: RdfTerm| objects_of(c.triples(), dist, ds_file_path()).contains(o) && text_of(o) is Some
    &&& exists|o: RdfTerm| objects_of(c.triples(), dist, dcat_media_type()).contains(o) && text_of(o) is Some
    &&& has_policy(c.triples(), remote_id)
}

impl FileOfferConnector {
    pub fn new(graph: Arc<ConfigGraph>) -> (c: FileOfferConnector)
        ensures
            c.graph() == *graph,
    {
        FileOfferConnector { graph }
    }

    pub closed spec fn graph(&self) -> ConfigGraph {
        *self.graph
    }

    /// The connector's source name.
    pub fn source_name(&self) -> (s: &'static str)
        ensures
            s@ == SOURCE_NAME@,
    {
        SOURCE_NAME
    }

    fn unsupported_kind(kind: &str) -> (e: ConnectorError)
        ensures
            e matches ConnectorError::UnsupportedKind { connector, kind: k } && connector@ == SOURCE_NAME@ && k@ == kind@,
    {
        ConnectorError::UnsupportedKind { connector: String::from_str(SOURCE_NAME), kind: String::from_str(kind) }
    }

    /// `Ok` exactly for the data-offer kind; otherwise an error naming the
    /// connector and the kind.
    fn require_data_offer_kind(&self, kind: &str) -> (r: Result<(), ConnectorError>)
        ensures
            r is Ok <==> kind@ == DATA_OFFER_KIND@,
            r matches Err(e) ==> e matches ConnectorError::UnsupportedKind { connector, kind: k }
                && connector@ == SOURCE_NAME@ && k@ == kind@,
    {
        let wanted = String::from_str(DATA_OFFER_KIND);
        let given = String::from_str(kind);
        if given == wanted {
            Ok(())
        } else {
            Err(Self::unsupported_kind(kind))
        }
    }

    /// Reads the data offer `remote_id`: its file path, media type and
    /// policy. Refuses any kind but the data-offer kind; succeeds for that
    /// kind exactly when the graph holds all three, and otherwise reports the
    /// failed read as an API error carrying its `NotFound` message.
    pub fn get(&self, kind: &str, remote_id: &str) -> (r: Result<Document, ConnectorError>)
        ensures
            kind@ != DATA_OFFER_KIND@ ==> (r matches Err(e) && (e matches ConnectorError::UnsupportedKind { connector, kind: k }
                && connector@ == SOURCE_NAME@ && k@ == kind@)),
            r matches Ok(d) ==> {
                &&& kind@ == DATA_OFFER_KIND@
                &&& d.name@ == remote_id@
                &&& d.remote_id@ == remote_id@
                &&& d.kind@ == kind@
                &&& d.source@ == SOURCE_NAME@
                &&& fields_read(&self.graph(), remote_id@, d.fields)
            },
            r is Ok <==> kind@ == DATA_OFFER_KIND@ && offer_readable(&self.graph(), remote_id@),
            kind@ == DATA_OFFER_KIND@ ==> (r matches Err(e) ==> e matches ConnectorError::Api { message }
                && message@ == not_found_message(remote_id@)),
    {
        self.require_data_offer_kind(kind)?;
        let file_path = match self.graph.file_path(remote_id) {
            Ok(p) => p,
            Err(e) => { return Err(ConnectorError::Api { message: e.message() }); },
        };
        let media_type = match self.graph.media_type(remote_id) {
            Ok(m) => m,
            Err(e) => { return Err(ConnectorError::Api { message: e.message() }); },
        };
        let policy = match self.graph.policy_jsonld(remote_id) {
            Ok(p) => p,
            Err(e) => { return Err(ConnectorError::Api { message: e.message() }); },
        };
        Ok(Document {
            name: String::from_str(remote_id),
            remote_id: String::from_str(remote_id),
            kind: String::from_str(kind),
            source: String::from_str(SOURCE_NAME),
            fields: DocumentFields { file_path, media_type, policy },
        })
    }

    /// Every data offer of the graph: the primary one. Refuses any kind but
    /// the data-offer kind.
    pub fn pull(&self, kind: &str) -> (r: Result<Vec<Document>, ConnectorError>)
        ensures
            kind@ != DATA_OFFER_KIND@ ==> (r matches Err(e) && (e matches ConnectorError::UnsupportedKind { connector, kind: k }
                && connector@ == SOURCE_NAME@ && k@ == kind@)),
            r matches Ok(v) ==> {
                &&& kind@ == DATA_OFFER_KIND@
                &&& v@.len() == 1
                &&& v@[0].remote_id@ == PRIMARY_OFFER_ID@
                &&& v@[0].name@ == PRIMARY_OFFER_ID@
                &&& v@[0].kind@ == kind@
                &&& v@[0].source@ == SOURCE_NAME@
                &&& fields_read(&self.graph(), PRIMARY_OFFER_ID@, v@[0].fields)
            },
            r is Ok <==> kind@ == DATA_OFFER_KIND@ && offer_readable(&self.graph(), PRIMARY_OFFER_ID@),
            kind@ == DATA_OFFER_KIND@ ==> (r matches Err(e) ==> e matches ConnectorError::Api { message }
                && message@ == not_found_message(PRIMARY_OFFER_ID@)),
    {
        self.require_data_offer_kind(kind)?;
        let doc = self.get(kind, PRIMARY_OFFER_ID)?;
        let mut v: Vec<Document> = Vec::new();
        v.push(doc);
        Ok(v)
    }

    /// Writing back is not supported: the graph is seeded from
    /// configuration, not from connector pushes.
    pub fn push(&self, doc: &Document) -> (r: Result<Document, ConnectorError>)
        ensures
            r matches Err(e) && (e matches ConnectorError::Unsupported { connector, operation }
                && connector@ == SOURCE_NAME@ && operation@ == "push"@),
    {
        Err(ConnectorError::Unsupported { connector: String::from_str(SOURCE_NAME), operation: String::from_str("push") })
    }
}

} // verus!
