//! Operations that need an Axon login.

use vstd::prelude::*;

use crate::json::Json;

verus! {

/// The error type of the agent client protocol.
#[verifier::external_type_specification]
#[verifier::external_body]
pub struct ExError(agent_client_protocol::Error);

/// The code of an `agent_client_protocol::Error`.
pub uninterp spec fn error_code(error: agent_client_protocol::Error) -> int;

/// The message of an `agent_client_protocol::Error`.
pub uninterp spec fn error_message(error: agent_client_protocol::Error) -> Seq<char>;

/// The data of an `agent_client_protocol::Error`.
pub uninterp spec fn error_data(error: agent_client_protocol::Error) -> Option<Json>;

/// The error that asks for a login, with a text as its data.
pub open spec fn is_auth_required(error: agent_client_protocol::Error, data: Seq<char>) -> bool {
    &&& error_code(error) == -32000
    &&& error_message(error) == "Authentication required"@
    &&& error_data(error) == Some(Json::Text(data))
}

/// `Error::auth_required` has the code -32000 and the message "Authentication
/// required", and `Error::data` puts the text into its data.
#[verifier::external_body]
fn auth_required(data: &'static str) -> (r: agent_client_protocol::Error)
    ensures
        error_code(r) == -32000,
        error_message(r) == "Authentication required"@,
        error_data(r) == Some(Json::Text(data@)),
{
    agent_client_protocol::Error::auth_required().data(data)
}

/// A login.
#[derive(Debug, Clone)]
pub struct AxonAuth {
    pub token: String,
    /// It was issued by Axon, rather than by another provider.
    pub axon: bool,
}

impl AxonAuth {
    pub fn is_axon_auth(&self) -> (r: bool)
        ensures
            r == self.axon,
    {
        self.axon
    }
}

/// Require an Axon login. `current` is the current login, expired or not:
/// tokens in the client-side buffer window are accepted.
pub fn require_axon_auth(
    current: Option<AxonAuth>,
    missing_message: &'static str,
    non_axon_message: &'static str,
) -> (r: Result<AxonAuth, agent_client_protocol::Error>)
    ensures
        match current {
            None => r matches Err(e) && is_auth_required(e, missing_message@),
            Some(auth) => if auth.axon {
                r == Ok::<AxonAuth, agent_client_protocol::Error>(auth)
            } else {
                r matches Err(e) && is_auth_required(e, non_axon_message@)
            },
        },
{
    match current {
        None => Err(auth_required(missing_message)),
        Some(auth) => if !auth.is_axon_auth() {
            Err(auth_required(non_axon_message))
        } else {
            Ok(auth)
        },
    }
}

/// An operation that is refused for want of a login says so by code, message and
/// data.
pub proof fn a_refusal_asks_for_a_login(error: agent_client_protocol::Error, data: Seq<char>)
    requires
        is_auth_required(error, data),
    ensures
        error_code(error) == -32000,
        error_message(error) == "Authentication required"@,
        error_data(error) == Some(Json::Text(data)),
{
}

/// A login that Axon issued is handed on; any other, and none, is refused with
/// its own message.
pub proof fn only_an_axon_login_passes(
    current: Option<AxonAuth>,
    missing_message: &'static str,
    non_axon_message: &'static str,
    r: Result<AxonAuth, agent_client_protocol::Error>,
)
    requires
        call_ensures(require_axon_auth, (current, missing_message, non_axon_message), r),
    ensures
        r is Ok <==> (current matches Some(auth) && auth.axon),
        r matches Ok(auth) ==> current == Some(auth),
        r matches Err(e) ==> {
            &&& error_code(e) == -32000
            &&& error_message(e) == "Authentication required"@
            &&& error_data(e) == Some(
                Json::Text(
                    if current is None {
                        missing_message@
                    } else {
                        non_axon_message@
                    },
                ),
            )
        },
{
}

} // verus!
