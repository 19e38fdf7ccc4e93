//! Control-plane self-registration, per the EDC Data Plane Signaling v5beta
//! API: a data plane registers itself with
//! `PUT /v5beta/participants/{participantContextId}/dataplanes`, whose JSON
//! body is `{ dataplaneId, endpoint, transferTypes, labels, authorization }`.

use vstd::prelude::*;

verus! {

#[verifier::external_type_specification]
#[verifier::external_body]
pub struct ExJsonValue(serde_json::Value);

/// The body of a self-registration request.
#[derive(Debug)]
pub struct DataPlaneRegistration {
    /// This data plane's own self-chosen, stable identifier.
    pub dataplane_id: String,
    /// This data plane's own signaling base URL, where the control plane
    /// sends its signaling messages (not the file-serving endpoint).
    pub endpoint: String,
    /// Transfer types this data plane can serve, e.g. `"HttpData-PULL"`.
    pub transfer_types: Vec<String>,
    /// Omitted from the JSON body when absent.
    pub labels: Option<Vec<String>>,
    /// Omitted from the JSON body when absent.
    pub authorization: Option<serde_json::Value>,
}

/// Why a registration attempt failed: the control plane could not be
/// reached, or it answered with a status outside 2xx.
#[derive(Debug)]
pub enum RegistrationError {
    Unreachable(String),
    Rejected(u16),
}

/// The URL of the registration endpoint under `control_plane_base_url`.
pub fn registration_url(control_plane_base_url: &str, participant_context_id: &str) -> (url: String)
    ensures
        url@ == control_plane_base_url@ + "/v5beta/participants/"@ + participant_context_id@ + "/dataplanes"@,
{
    String::from_str(control_plane_base_url).concat("/v5beta/participants/").concat(participant_context_id).concat("/dataplanes")
}

/// What an HTTP answer to the registration means: success for a 2xx
/// status, a rejection naming the status otherwise.
pub fn registration_outcome(status: u16) -> (r: Result<(), RegistrationError>)
    ensures
        r is Ok <==> 200 <= status < 300,
        r matches Err(e) ==> e matches RegistrationError::Rejected(s) && s == status,
{
    if 200 <= status && status < 300 {
        Ok(())
    } else {
        Err(RegistrationError::Rejected(status))
    }
}

impl RegistrationError {
    /// The error's message.
    pub fn message(&self) -> (m: String)
        ensures
            self matches RegistrationError::Unreachable(e) ==> m@ == "control plane unreachable: "@ + e@,
            self matches RegistrationError::Rejected(s) ==> m@ == "control plane rejected the registration with status "@
                + crate::decimal::dec(s as nat),
    {
        match self {
            RegistrationError::Unreachable(e) => String::from_str("control plane unreachable: ").concat(e.as_str()),
            RegistrationError::Rejected(status) => String::from_str("control plane rejected the registration with status ")
                .concat(crate::decimal::decimal_string(*status as u64).as_str()),
        }
    }
}

} // verus!
