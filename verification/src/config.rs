//! Test modes, transports and the accounts a callee-side test registers.
use vstd::prelude::*;

verus! {

/// Which side of the calls the test plays.
#[derive(Debug, Clone, Copy, PartialEq, Eq, Structural)]
pub enum Mode {
    /// Places calls: sends the INVITEs.
    Caller,
    /// Answers calls: registers accounts and accepts the INVITEs sent to them.
    Agent,
}

impl Default for Mode {
    fn default() -> (m: Mode)
        ensures
            m == Mode::Caller,
    {
        Mode::Caller
    }
}

/// Transport protocol of the signalling.
#[derive(Debug, Clone, Copy, PartialEq, Eq, Structural)]
pub enum Transport {
    Udp,
    Tcp,
}

/// The name of a transport as SIP writes it in a `Via` header.
pub open spec fn transport_name(t: Transport) -> Seq<char> {
    match t {
        Transport::Udp => "UDP"@,
        Transport::Tcp => "TCP"@,
    }
}

impl Transport {
    /// `UDP` or `TCP`, as SIP messages write it.
    pub fn as_str(&self) -> (s: &'static str)
        ensures
            s@ == transport_name(*self),
    {
        match self {
            Transport::Udp => "UDP",
            Transport::Tcp => "TCP",
        }
    }
}

impl Default for Transport {
    fn default() -> (t: Transport)
        ensures
            t == Transport::Udp,
    {
        Transport::Udp
    }
}

/// An account of the callee side.
#[derive(Debug, Clone, Default)]
pub struct AgentAccount {
    pub extension: String,
    pub username: String,
    pub password: String,
    pub domain: String,
}

/// Why a test does not start.
#[derive(Debug, Clone, Copy, PartialEq, Eq, Structural)]
pub enum StartError {
    /// The calling side runs over UDP only.
    TcpUnsupported,
    /// The callee side has no account to register.
    NoAgentAccounts,
}

/// The calling side starts only over UDP.
pub fn check_caller_transport(t: Transport) -> (r: Result<(), StartError>)
    ensures
        r is Ok <==> t == Transport::Udp,
        r is Err ==> r == Err::<(), StartError>(StartError::TcpUnsupported),
{
    match t {
        Transport::Udp => Ok(()),
        Transport::Tcp => Err(StartError::TcpUnsupported),
    }
}

/// The callee side starts only with at least one account.
pub fn check_agent_accounts(accounts: &Vec<AgentAccount>) -> (r: Result<(), StartError>)
    ensures
        r is Ok <==> accounts@.len() > 0,
        r is Err ==> r == Err::<(), StartError>(StartError::NoAgentAccounts),
{
    if accounts.len() == 0 {
        Err(StartError::NoAgentAccounts)
    } else {
        Ok(())
    }
}

} // verus!
