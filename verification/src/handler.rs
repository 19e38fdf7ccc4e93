//! The provider side of the Data Plane Signaling state machine for a single
//! file offer: START mints a bearer token and answers with the address the
//! file is served at; TERMINATE revokes the flow's tokens; PREPARE (the
//! consumer role) and SUSPEND are refused as not supported, so that no
//! caller mistakes them for having worked. The ODRL policy itself is
//! checked on every request to the public endpoint, not here.

use vstd::prelude::*;
use std::sync::Arc;
use crate::graph::{distribution_iri_of, ds_file_path, not_found_message, ConfigGraph};
use crate::policy::text_of;
use crate::rdf::{objects_of, Node, RdfTerm, Triple};
use crate::tokens::{is_v4_uuid_text, TokenStore, TokenRecordView};

verus! {

/// One named property of a data address.
#[derive(Debug)]
pub struct EndpointProperty {
    pub name: String,
    pub value: String,
}

/// Where and how a consumer pulls the data of a started flow.
#[derive(Debug)]
pub struct DataAddress {
    pub endpoint_type: String,
    pub endpoint: String,
    pub endpoint_properties: Vec<EndpointProperty>,
}

impl DataAddress {
    /// The value of the first property named `name`.
    pub fn get_property(&self, name: &str) -> (r: Option<String>)
        ensures
            r matches Some(v) ==> exists|i: int| 0 <= i < self.endpoint_properties@.len()
                && (#[trigger] self.endpoint_properties@[i]).name@ == name@
                && self.endpoint_properties@[i].value@ == v@
                && forall|k: int| 0 <= k < i ==> (#[trigger] self.endpoint_properties@[k]).name@ != name@,
            r is None ==> forall|i: int| 0 <= i < self.endpoint_properties@.len()
                ==> (#[trigger] self.endpoint_properties@[i]).name@ != name@,
    {
        let wanted = String::from_str(name);
        let mut i: usize = 0;
        while i < self.endpoint_properties.len()
            invariant
                i <= self.endpoint_properties@.len(),
                wanted@ == name@,
                forall|k: int| 0 <= k < i ==> (#[trigger] self.endpoint_properties@[k]).name@ != name@,
            decreases self.endpoint_properties.len() - i,
        {
            if self.endpoint_properties[i].name == wanted {
                return Some(self.endpoint_properties[i].value.clone());
            }
            i = i + 1;
        }
        None
    }
}

/// The answer to START: the flow, now in state STARTED, and the address its
/// data is served at.
#[derive(Debug)]
pub struct StartedFlow {
    pub data_flow_id: String,
    pub data_address: DataAddress,
}

/// Why a signaling operation was refused.
#[derive(Debug)]
pub enum HandlerError {
    NotSupported(String),
}

/// The graph offers a file for `dataset_id`: its distribution has a file
/// path.
pub open spec fn offers_file(g: Set<Triple>, dataset_id: Seq<char>) -> bool {
    exists|o: RdfTerm| objects_of(g, Node::Iri(distribution_iri_of(dataset_id)), ds_file_path()).contains(o)
        && text_of(o) is Some
}

/// The address START answers with, for a given token.
pub open spec fn started_address(a: DataAddress, endpoint: Seq<char>, token: Seq<char>) -> bool {
    &&& a.endpoint_type@ == "HTTP"@
    &&& a.endpoint@ == endpoint
    &&& a.endpoint_properties@.len() == 3
    &&& a.endpoint_properties@[0].name@ == "endpoint"@
    &&& a.endpoint_properties@[0].value@ == endpoint
    &&& a.endpoint_properties@[1].name@ == "authorization"@
    &&& a.endpoint_properties@[1].value@ == token
    &&& a.endpoint_properties@[2].name@ == "authType"@
    &&& a.endpoint_properties@[2].value@ == "bearer"@
}

/// The provider-side signaling handler for the configured file offer.
pub struct FileOfferHandler {
    graph: Arc<ConfigGraph>,
    public_base_url: String,
    tck_mode: bool,
}

impl FileOfferHandler {
    /// A handler serving the offers of `graph` under `public_base_url`;
    /// with `tck_mode`, START accepts any dataset id.
    pub fn new(graph: Arc<ConfigGraph>, public_base_url: String, tck_mode: bool) -> (h: FileOfferHandler)
        ensures
            h.graph() == *graph,
            h.public_base_url() == public_base_url@,
            h.tck_mode() == tck_mode,
    {
        FileOfferHandler { graph, public_base_url, tck_mode }
    }

    pub closed spec fn graph(&self) -> ConfigGraph {
        *self.graph
    }

    pub closed spec fn public_base_url(&self) -> Seq<char> {
        self.public_base_url@
    }

    pub closed spec fn tck_mode(&self) -> bool {
        self.tck_mode
    }

    /// Every flow is one this handler takes.
    pub fn can_handle(&self) -> (r: bool)
        ensures
            r,
    {
        true
    }

    /// START: unless in conformance-test mode, refuses a dataset the graph
    /// offers no file for (rather than minting a token for a file that would
    /// answer 404 on every request); otherwise mints a token for the flow
    /// and answers with `<public base URL>/public/<dataset id>` as endpoint,
    /// the token as `authorization` and `bearer` as `authType`.
    pub fn on_start(&self, tokens: &mut TokenStore, flow_id: &str, dataset_id: &str) -> (r: Result<StartedFlow, HandlerError>)
        ensures
            r is Ok <==> self.tck_mode() || offers_file(self.graph().triples(), dataset_id@),
            r matches Err(HandlerError::NotSupported(m)) ==> m@ == "unknown dataset '"@ + dataset_id@ + "': "@
                + not_found_message(dataset_id@),
            r is Err ==> final(tokens)@ == old(tokens)@,
            r matches Ok(s) ==> {
                &&& s.data_flow_id@ == flow_id@
                &&& started_address(s.data_address, self.public_base_url() + "/public/"@ + dataset_id@,
                    s.data_address.endpoint_properties@[1].value@)
                &&& is_v4_uuid_text(s.data_address.endpoint_properties@[1].value@)
                &&& final(tokens)@ == old(tokens)@.insert(s.data_address.endpoint_properties@[1].value@,
                    TokenRecordView { flow_id: flow_id@, dataset_id: dataset_id@ })
            },
    {
        if !self.tck_mode {
            match self.graph.file_path(dataset_id) {
                Ok(_) => {},
                Err(e) => {
                    let reason = e.message();
                    let m = String::from_str("unknown dataset '").concat(dataset_id).concat("': ").concat(reason.as_str());
                    assert(m@ == "unknown dataset '"@ + dataset_id@ + "': "@ + reason@);
                    return Err(HandlerError::NotSupported(m));
                },
            }
        }
        let token = tokens.issue(flow_id, dataset_id);
        let endpoint = self.public_base_url.clone().concat("/public/").concat(dataset_id);
        let mut properties: Vec<EndpointProperty> = Vec::new();
        properties.push(EndpointProperty { name: String::from_str("endpoint"), value: endpoint.clone() });
        properties.push(EndpointProperty { name: String::from_str("authorization"), value: token });
        properties.push(EndpointProperty { name: String::from_str("authType"), value: String::from_str("bearer") });
        Ok(StartedFlow {
            data_flow_id: String::from_str(flow_id),
            data_address: DataAddress { endpoint_type: String::from_str("HTTP"), endpoint, endpoint_properties: properties },
        })
    }

    /// PREPARE is the consumer-role operation; this data plane only plays
    /// the provider role.
    pub fn on_prepare(&self) -> (r: Result<StartedFlow, HandlerError>)
        ensures
            r matches Err(HandlerError::NotSupported(m))
                && m@ == "this data plane only implements the provider role (START/TERMINATE)"@,
    {
        Err(HandlerError::NotSupported(String::from_str("this data plane only implements the provider role (START/TERMINATE)")))
    }

    /// TERMINATE: revokes every token issued for the flow.
    pub fn on_terminate(&self, tokens: &mut TokenStore, flow_id: &str) -> (r: Result<(), HandlerError>)
        ensures
            r is Ok,
            final(tokens)@ == old(tokens)@.restrict(old(tokens)@.dom().filter(
                |k: Seq<char>| old(tokens)@[k].flow_id != flow_id@)),
    {
        tokens.revoke_flow(flow_id);
        Ok(())
    }

    /// The flow reached STARTED: the address and token were already
    /// returned from START, so there is nothing left to do.
    pub fn on_started(&self) -> (r: Result<(), HandlerError>)
        ensures
            r is Ok,
    {
        Ok(())
    }

    /// SUSPEND is refused rather than silently accepted, so that a control
    /// plane does not believe it succeeded while the token is still live.
    pub fn on_suspend(&self) -> (r: Result<(), HandlerError>)
        ensures
            r matches Err(HandlerError::NotSupported(m)) && m@ == "SUSPEND is not implemented by this MVP data plane"@,
    {
        Err(HandlerError::NotSupported(String::from_str("SUSPEND is not implemented by this MVP data plane")))
    }
}

impl HandlerError {
    /// The error's message.
    pub fn message(&self) -> (m: String)
        ensures
            self matches HandlerError::NotSupported(s) ==> m@ == s@,
    {
        match self {
            HandlerError::NotSupported(s) => s.clone(),
        }
    }
}

} // verus!
