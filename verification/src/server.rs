//! The HTTP server that the desktop application starts, stops and
//! restarts: its address, the checks on a new host or port, and the state of
//! its running task.

use vstd::prelude::*;
use crate::host::{is_host_address, is_host_address_text};
use crate::text::{address_string, address_text, decimal, push_decimal};

verus! {

/// The port a server has before any is set.
pub const DEFAULT_PORT: u16 = 47603;

/// Whether a server in state `st` listens on an allowed address: a port
/// from 1024 up, and `127.0.0.1` or another host address.
pub open spec fn address_valid(st: HostServerState) -> bool {
    st.port >= 1024 && (st.host == "127.0.0.1"@ || is_host_address(st.host))
}

/// How a requested port is judged before it is tried.
#[derive(PartialEq, Eq, Structural, Clone, Copy, Debug)]
pub enum PortVerdict {
    /// Port 0, which is refused.
    Zero,
    /// A port below 1024, reserved for the system, which is refused.
    Reserved,
    /// A port from 1024 up, which is taken if it can be bound.
    Acceptable,
}

/// The verdict on `port`.
pub open spec fn port_verdict(port: u16) -> PortVerdict {
    if port == 0 {
        PortVerdict::Zero
    } else if port < 1024 {
        PortVerdict::Reserved
    } else {
        PortVerdict::Acceptable
    }
}

/// Exactly port 0 is refused as zero, exactly the ports 1 to 1023 are
/// refused as reserved, and every port from 1024 to 65535 is acceptable.
pub proof fn law_port_verdicts(port: u16)
    ensures
        port == 0 ==> port_verdict(port) == PortVerdict::Zero,
        1 <= port <= 1023 ==> port_verdict(port) == PortVerdict::Reserved,
        1024 <= port ==> port_verdict(port) == PortVerdict::Acceptable,
{
}

/// Judges a requested port: 0 and the ports below 1024 are refused.
pub fn check_port(port: u16) -> (v: PortVerdict)
    ensures
        v == port_verdict(port),
        (v == PortVerdict::Zero) <==> port == 0,
        (v == PortVerdict::Reserved) <==> (1 <= port && port <= 1023),
        (v == PortVerdict::Acceptable) <==> port >= 1024,
{
    if port == 0 {
        PortVerdict::Zero
    } else if port < 1024 {
        PortVerdict::Reserved
    } else {
        PortVerdict::Acceptable
    }
}

/// What a `WenfoxServer` holds: its host and port, and the handle of its
/// task and the channel that stops it, when it keeps them.
pub struct HostServerState {
    pub host: Seq<char>,
    pub port: u16,
    pub task: Option<tokio::task::JoinHandle<()>>,
    pub shutdown: Option<tokio::sync::oneshot::Sender<()>>,
}

/// The server that the desktop application runs: where it listens and, while
/// it runs, the handle of its task and the channel that stops it.
pub struct WenfoxServer {
    host: String,
    port: u16,
    server_handle: Option<tokio::task::JoinHandle<()>>,
    shutdown_sender: Option<tokio::sync::oneshot::Sender<()>>,
}

impl View for WenfoxServer {
    type V = HostServerState;

    closed spec fn view(&self) -> HostServerState {
        HostServerState {
            host: self.host@,
            port: self.port,
            task: self.server_handle,
            shutdown: self.shutdown_sender,
        }
    }
}

impl WenfoxServer {
    /// Its port is never 0 nor reserved, and its host is the default one or
    /// a host address.
    #[verifier::type_invariant]
    closed spec fn well_formed(self) -> bool {
        &&& self.port >= 1024
        &&& (self.host@ == "127.0.0.1"@ || is_host_address(self.host@))
    }

    /// A stopped server on `127.0.0.1`, port 47603.
    pub fn default() -> (s: WenfoxServer)
        ensures
            s@.host == "127.0.0.1"@,
            s@.port == DEFAULT_PORT,
            s@.task is None,
            s@.shutdown is None,
            address_valid(s@),
    {
        WenfoxServer {
            host: String::from_str("127.0.0.1"),
            port: DEFAULT_PORT,
            server_handle: None,
            shutdown_sender: None,
        }
    }

    /// Sets the host to `host` when it is `localhost`, an IPv4 address or an
    /// IPv6 address; otherwise keeps the server as it is.
    pub fn set_host(&mut self, host: &str) -> (r: &mut Self)
        ensures
            is_host_address(host@) ==> (*r)@ == (HostServerState { host: host@, ..old(self)@ }),
            !is_host_address(host@) ==> (*r)@ == old(self)@,
            address_valid((*r)@),
            *final(r) == *final(self),
    {
        proof {
            use_type_invariant(&*self);
        }
        if is_host_address_text(host) {
            self.host = String::from_str(host);
        }
        self
    }

    /// Sets the port to `port` when it is neither 0 nor below 1024 and
    /// `bindable` says that a listener could be bound to it on this host;
    /// otherwise keeps the server as it is.
    pub fn set_port(&mut self, port: u16, bindable: bool) -> (r: &mut Self)
        ensures
            port_verdict(port) == PortVerdict::Acceptable && bindable ==> (*r)@ == (
            HostServerState { port, ..old(self)@ }),
            !(port_verdict(port) == PortVerdict::Acceptable && bindable) ==> (*r)@ == old(self)@,
            port >= 1024 && bindable ==> (*r)@.port == port && (*r)@.host == old(self)@.host,
            port < 1024 || !bindable ==> (*r)@ == old(self)@,
            address_valid((*r)@),
            *final(r) == *final(self),
    {
        proof {
            use_type_invariant(&*self);
        }
        if check_port(port) == PortVerdict::Acceptable && bindable {
            self.port = port;
        }
        self
    }

    /// The address the server binds to: `host:port`.
    pub fn bind_address(&self) -> (r: String)
        ensures
            r@ == address_text(self@.host, self@.port),
    {
        address_string(self.host.as_str(), self.port)
    }

    /// Keeps the handle of the task that serves requests and the channel that
    /// stops it, replacing any kept before.
    pub fn attach_task(
        &mut self,
        handle: tokio::task::JoinHandle<()>,
        sender: tokio::sync::oneshot::Sender<()>,
    )
        ensures
            final(self)@ == (HostServerState {
                task: Some(handle),
                shutdown: Some(sender),
                ..old(self)@
            }),
            address_valid(final(self)@),
    {
        proof {
            use_type_invariant(&*self);
        }
        self.server_handle = Some(handle);
        self.shutdown_sender = Some(sender);
    }

    /// Hands out the shutdown channel and the task handle, if any, so that
    /// the task can be told to stop and awaited; the server keeps neither.
    pub fn detach_task(&mut self) -> (r: (
        Option<tokio::sync::oneshot::Sender<()>>,
        Option<tokio::task::JoinHandle<()>>,
    ))
        ensures
            r == (old(self)@.shutdown, old(self)@.task),
            final(self)@ == (HostServerState { task: None, shutdown: None, ..old(self)@ }),
            address_valid(final(self)@),
    {
        proof {
            use_type_invariant(&*self);
        }
        let mut current = WenfoxServer::default();
        std::mem::swap(self, &mut current);
        let WenfoxServer { host, port, server_handle, shutdown_sender } = current;
        *self = WenfoxServer { host, port, server_handle: None, shutdown_sender: None };
        (shutdown_sender, server_handle)
    }

    /// The host the server listens on.
    pub fn host(&self) -> (r: &str)
        ensures
            r@ == self@.host,
    {
        self.host.as_str()
    }

    /// The port the server listens on.
    pub fn port(&self) -> (r: u16)
        ensures
            r == self@.port,
    {
        self.port
    }

    /// Whether the server keeps a task handle, that is, has been started and
    /// not stopped since.
    pub fn is_running(&self) -> (r: bool)
        ensures
            r == self@.task is Some,
    {
        self.server_handle.is_some()
    }
}

/// How many times a restart has tried to run the server, out of how many.
pub struct RestartProgress {
    pub retries: u8,
    pub attempts: u8,
}

/// The number of tries a restart makes when none is given.
pub const DEFAULT_RESTART_RETRIES: u8 = 3;

/// The bookkeeping of a restart: it runs the server again after each
/// failed try, up to a number of tries.
pub struct RestartPlan {
    retries: u8,
    attempts: u8,
}

impl View for RestartPlan {
    type V = RestartProgress;

    closed spec fn view(&self) -> RestartProgress {
        RestartProgress { retries: self.retries, attempts: self.attempts }
    }
}

/// What a restart does after a try.
#[derive(PartialEq, Eq, Structural, Clone, Copy, Debug)]
pub enum RestartAction {
    /// The server runs again; the restart is done.
    Succeeded,
    /// The try failed and tries are left: wait, then run the server again.
    RetryAfterDelay,
    /// The last allowed try failed: wait, then report the failure.
    GiveUpAfterDelay,
}

/// The message a restart fails with after `retries` failed tries.
pub open spec fn restart_failure_text(retries: u8) -> Seq<char> {
    "经过 "@ + decimal(retries as nat) + " 次尝试后仍无法重启服务器 | Failed to restart after "@
        + decimal(retries as nat) + " attempts"@
}

impl RestartPlan {
    /// No more tries are counted than allowed.
    #[verifier::type_invariant]
    closed spec fn well_formed(self) -> bool {
        self.attempts <= self.retries
    }

    /// A restart that has not tried yet and allows `max_retries` tries, or 3
    /// when none is given.
    pub fn new(max_retries: Option<u8>) -> (p: RestartPlan)
        ensures
            p@.retries == match max_retries {
                Some(n) => n,
                None => DEFAULT_RESTART_RETRIES,
            },
            p@.attempts == 0,
    {
        let retries = match max_retries {
            Some(n) => n,
            None => DEFAULT_RESTART_RETRIES,
        };
        RestartPlan { retries, attempts: 0 }
    }

    /// Whether another try is allowed. When it is not, every allowed try has
    /// been made and has failed.
    pub fn should_attempt(&self) -> (r: bool)
        ensures
            r == (self@.attempts < self@.retries),
            !r ==> self@.attempts == self@.retries,
    {
        proof {
            use_type_invariant(self);
        }
        self.attempts < self.retries
    }

    /// Takes the outcome of an allowed try and says what comes next: after a
    /// success the restart is done and nothing is counted; a failure is
    /// counted, and the restart waits and then tries again while tries are
    /// left, or waits and gives up once the last allowed try has failed.
    pub fn after_attempt(&mut self, succeeded: bool) -> (a: RestartAction)
        requires
            old(self)@.attempts < old(self)@.retries,
        ensures
            succeeded ==> a == RestartAction::Succeeded && final(self)@ == old(self)@,
            !succeeded ==> final(self)@ == (RestartProgress {
                attempts: (old(self)@.attempts + 1) as u8,
                ..old(self)@
            }),
            !succeeded ==> a == (if final(self)@.attempts < final(self)@.retries {
                RestartAction::RetryAfterDelay
            } else {
                RestartAction::GiveUpAfterDelay
            }),
            a == RestartAction::GiveUpAfterDelay ==> final(self)@.attempts == final(self)@.retries,
    {
        if succeeded {
            return RestartAction::Succeeded;
        }
        self.attempts = self.attempts + 1;
        if self.attempts < self.retries {
            RestartAction::RetryAfterDelay
        } else {
            RestartAction::GiveUpAfterDelay
        }
    }

    /// The number of tries allowed.
    pub fn retries(&self) -> (r: u8)
        ensures
            r == self@.retries,
    {
        self.retries
    }

    /// The number of failed tries so far.
    pub fn attempts(&self) -> (r: u8)
        ensures
            r == self@.attempts,
    {
        self.attempts
    }

    /// The message the restart fails with once no try is left.
    pub fn failure_message(&self) -> (r: String)
        ensures
            r@ == restart_failure_text(self@.retries),
    {
        let mut r = String::from_str("经过 ");
        push_decimal(&mut r, self.retries as u64);
        r.append(" 次尝试后仍无法重启服务器 | Failed to restart after ");
        push_decimal(&mut r, self.retries as u64);
        r.append(" attempts");
        r
    }
}

} // verus!
