//! Client-wide settings.
use vstd::prelude::*;

verus! {

/// Access credentials that requests are signed with.
#[derive(Debug, Clone)]
pub struct Credentials {
    pub access_key: String,
    pub secret_key: String,
    pub security_token: Option<String>,
}

impl Credentials {
    pub fn new(access_key: String, secret_key: String) -> (r: Credentials)
        ensures
            r.access_key@ == access_key@,
            r.secret_key@ == secret_key@,
            r.security_token.is_none(),
    {
        Credentials { access_key, secret_key, security_token: None }
    }
}

/// Settings shared by the producers and consumers of one client.
#[derive(Debug, Clone)]
pub struct ClientOptions {
    pub group_name: String,
    pub name_server_addrs: Vec<String>,
    pub client_ip: String,
    pub instance_name: String,
    pub unit_mode: bool,
    pub unit_name: String,
    pub vip_channel_enabled: bool,
    pub retry_times: usize,
    pub credentials: Option<Credentials>,
    pub namespace: String,
}

impl ClientOptions {
    /// Options of group `group` for a client at address `client_ip`:
    /// instance `DEFAULT`, three retries, no credentials.
    pub fn new(group: &str, client_ip: String) -> (r: ClientOptions)
        ensures
            r.group_name@ == group@,
            r.client_ip@ == client_ip@,
            r.name_server_addrs@.len() == 0,
            r.instance_name@ == "DEFAULT"@,
            !r.unit_mode,
            r.unit_name@.len() == 0,
            !r.vip_channel_enabled,
            r.retry_times == 3,
            r.credentials.is_none(),
            r.namespace@.len() == 0,
    {
        ClientOptions {
            group_name: group.to_owned(),
            name_server_addrs: Vec::new(),
            client_ip,
            instance_name: "DEFAULT".to_owned(),
            unit_mode: false,
            unit_name: String::new(),
            vip_channel_enabled: false,
            retry_times: 3,
            credentials: None,
            namespace: String::new(),
        }
    }
}

/// The life cycle of a client.
#[derive(Debug, Clone, Copy, PartialEq, Eq, Structural)]
pub enum ClientState {
    Created,
    StartFailed,
    Running,
    Shutdown,
}

/// Starting: only a client just created starts its background work, and is
/// then running; in any other state nothing happens. Returns the new state
/// and whether to start.
pub fn start_transition(state: ClientState) -> (r: (ClientState, bool))
    ensures
        state == ClientState::Created ==> r == (ClientState::Running, true),
        state != ClientState::Created ==> r == (state, false),
{
    match state {
        ClientState::Created => (ClientState::Running, true),
        _ => (state, false),
    }
}

/// Shutting down: the client is shut down afterwards; its work is stopped
/// only the first time, so shutting down twice is the same as once.
pub fn shutdown_transition(state: ClientState) -> (r: (ClientState, bool))
    ensures
        r.0 == ClientState::Shutdown,
        r.1 == (state != ClientState::Shutdown),
{
    (ClientState::Shutdown, state != ClientState::Shutdown)
}

} // verus!
