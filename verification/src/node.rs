//! The chain-node actor: a small state machine over the node's
//! connection mode.
//!
//! The actor serializes access to the supervised node worker. Every
//! operation splits into a guard step, which checks the current mode and
//! produces the request to send, and a completion step, which applies the
//! worker's reply to the mode. The channel transport between the two
//! steps lives outside this crate.

use vstd::prelude::*;

verus! {

/// Connection mode of the chain node.
#[derive(Debug)]
pub enum NodeMode {
    /// A locally supervised node instance is running.
    Local,
    /// Connected to an externally managed node over the given socket path.
    External(String),
    /// No node is attached.
    Disconnected,
}

/// A request for the supervised node worker.
#[derive(Debug)]
pub enum NockchainRequest {
    StartMaster,
    StopMaster,
    ConnectExternal(String),
    DisconnectExternal,
    GetStatus,
}

/// A reply from the supervised node worker.
#[derive(Debug)]
pub enum NockchainResponse {
    Success,
    Status { master_running: bool, num_workers: u64 },
}

/// The node actor state: the current connection mode.
#[derive(Debug)]
pub struct NockchainNode {
    mode: NodeMode,
}

impl NockchainNode {
    /// The current mode, for contracts.
    pub closed spec fn mode_spec(&self) -> NodeMode {
        self.mode
    }

    /// A fresh actor, not attached to any node.
    pub fn new() -> (r: Self)
        ensures
            r.mode_spec() is Disconnected,
    {
        NockchainNode { mode: NodeMode::Disconnected }
    }

    /// Guard for starting the local master node: rejected while an
    /// external socket is connected.
    pub fn start_master(&self) -> (r: Result<NockchainRequest, String>)
        ensures
            match r {
                Ok(req) => !(self.mode_spec() is External) && req is StartMaster,
                Err(e) => self.mode_spec() is External && e@
                    == "Cannot start local node when connected to external socket"@,
            },
    {
        match &self.mode {
            NodeMode::External(_) => Err(String::from_str(
                "Cannot start local node when connected to external socket",
            )),
            _ => Ok(NockchainRequest::StartMaster),
        }
    }

    /// Applies the worker's reply to a start request: on success the mode
    /// becomes `Local`; on failure the mode is unchanged and the error is
    /// passed through.
    pub fn complete_start_master(&mut self, outcome: Result<NockchainResponse, String>) -> (r:
        Result<(), String>)
        ensures
            old(self).mode_spec() is External ==> final(self).mode_spec() == old(self).mode_spec() && r is Err,
            !(old(self).mode_spec() is External) && outcome is Ok ==> final(self).mode_spec() is Local
                && r is Ok,
            !(old(self).mode_spec() is External) && (outcome matches Err(e)) ==> final(self).mode_spec()
                == old(self).mode_spec() && r == Err::<(), String>(outcome->Err_0),
    {
        match &self.mode {
            NodeMode::External(_) => Err(String::from_str(
                "Cannot start local node when connected to external socket",
            )),
            _ => match outcome {
                Ok(_) => {
                    self.mode = NodeMode::Local;
                    Ok(())
                },
                Err(e) => Err(e),
            },
        }
    }

    /// Guard for stopping the local node: only valid in `Local` mode.
    pub fn stop_master(&self) -> (r: Result<NockchainRequest, String>)
        ensures
            match r {
                Ok(req) => self.mode_spec() is Local && req is StopMaster,
                Err(e) => match self.mode_spec() {
                    NodeMode::External(_) => e@ == "Cannot stop external node"@,
                    NodeMode::Disconnected => e@ == "No node running to stop"@,
                    NodeMode::Local => false,
                },
            },
    {
        match &self.mode {
            NodeMode::Local => Ok(NockchainRequest::StopMaster),
            NodeMode::External(_) => Err(String::from_str("Cannot stop external node")),
            NodeMode::Disconnected => Err(String::from_str("No node running to stop")),
        }
    }

    /// Applies the worker's reply to a stop request: on success the mode
    /// becomes `Disconnected`.
    pub fn complete_stop_master(&mut self, outcome: Result<NockchainResponse, String>) -> (r:
        Result<(), String>)
        ensures
            !(old(self).mode_spec() is Local) ==> final(self).mode_spec() == old(self).mode_spec() && r is Err,
            old(self).mode_spec() is Local && outcome is Ok ==> final(self).mode_spec() is Disconnected
                && r is Ok,
            old(self).mode_spec() is Local && (outcome matches Err(e)) ==> final(self).mode_spec() == old(self).mode_spec() && r == Err::<(), String>(outcome->Err_0),
    {
        match &self.mode {
            NodeMode::Local => match outcome {
                Ok(_) => {
                    self.mode = NodeMode::Disconnected;
                    Ok(())
                },
                Err(e) => Err(e),
            },
            NodeMode::External(_) => Err(String::from_str("Cannot stop external node")),
            NodeMode::Disconnected => Err(String::from_str("No node running to stop")),
        }
    }

    /// Guard for connecting to an external node socket. The caller checks
    /// on disk whether the socket path exists at call time and passes the
    /// answer in; a missing path is rejected without changing the mode.
    pub fn connect_external(&self, socket_path: &str, path_exists: bool) -> (r: Result<
        NockchainRequest,
        String,
    >)
        ensures
            match r {
                Ok(req) => path_exists && (req matches NockchainRequest::ConnectExternal(p)
                    && p@ == socket_path@),
                Err(e) => !path_exists && e@ == "Socket path does not exist: "@ + socket_path@,
            },
    {
        if !path_exists {
            let mut e = String::from_str("Socket path does not exist: ");
            e.append(socket_path);
            Err(e)
        } else {
            Ok(NockchainRequest::ConnectExternal(String::from_str(socket_path)))
        }
    }

    /// Applies the worker's reply to a connect request: on success the
    /// mode becomes `External` with the given path.
    pub fn complete_connect_external(
        &mut self,
        socket_path: &str,
        outcome: Result<NockchainResponse, String>,
    ) -> (r: Result<(), String>)
        ensures
            outcome is Ok ==> (final(self).mode_spec() matches NodeMode::External(p) && p@
                == socket_path@) && r is Ok,
            outcome matches Err(e) ==> final(self).mode_spec() == old(self).mode_spec() && r == Err::<
                (),
                String,
            >(e),
    {
        match outcome {
            Ok(_) => {
                self.mode = NodeMode::External(String::from_str(socket_path));
                Ok(())
            },
            Err(e) => Err(e),
        }
    }

    /// Guard for disconnecting from an external node: only valid in
    /// `External` mode.
    pub fn disconnect_external(&self) -> (r: Result<NockchainRequest, String>)
        ensures
            match r {
                Ok(req) => self.mode_spec() is External && req is DisconnectExternal,
                Err(e) => match self.mode_spec() {
                    NodeMode::Local => e@
                        == "Cannot disconnect external node when using local node"@,
                    NodeMode::Disconnected => e@ == "No external node connected"@,
                    NodeMode::External(_) => false,
                },
            },
    {
        match &self.mode {
            NodeMode::External(_) => Ok(NockchainRequest::DisconnectExternal),
            NodeMode::Local => Err(String::from_str(
                "Cannot disconnect external node when using local node",
            )),
            NodeMode::Disconnected => Err(String::from_str("No external node connected")),
        }
    }

    /// Applies the worker's reply to a disconnect request: on success the
    /// mode becomes `Disconnected`.
    pub fn complete_disconnect_external(&mut self, outcome: Result<NockchainResponse, String>) -> (
        r: Result<(), String>)
        ensures
            !(old(self).mode_spec() is External) ==> final(self).mode_spec() == old(self).mode_spec() && r is Err,
            old(self).mode_spec() is External && outcome is Ok ==> final(self).mode_spec() is Disconnected
                && r is Ok,
            old(self).mode_spec() is External && (outcome matches Err(e)) ==> final(self).mode_spec() == old(self).mode_spec() && r == Err::<(), String>(outcome->Err_0),
    {
        match &self.mode {
            NodeMode::External(_) => match outcome {
                Ok(_) => {
                    self.mode = NodeMode::Disconnected;
                    Ok(())
                },
                Err(e) => Err(e),
            },
            NodeMode::Local => Err(String::from_str(
                "Cannot disconnect external node when using local node",
            )),
            NodeMode::Disconnected => Err(String::from_str("No external node connected")),
        }
    }

    /// The request used to poll the worker for its status; valid in any
    /// mode and without effect on it.
    pub fn get_status(&self) -> (r: NockchainRequest)
        ensures
            r is GetStatus,
    {
        NockchainRequest::GetStatus
    }

    /// Reads a status reply: whether the master instance runs and how
    /// many auxiliary workers are active.
    pub fn parse_status(outcome: Result<NockchainResponse, String>) -> (r: Result<
        (bool, u64),
        String,
    >)
        ensures
            match outcome {
                Ok(NockchainResponse::Status { master_running, num_workers }) => r == Ok::<
                    (bool, u64),
                    String,
                >((master_running, num_workers)),
                Ok(NockchainResponse::Success) => r matches Err(e) && e@ == "invalid response"@,
                Err(e) => r == Err::<(bool, u64), String>(e),
            },
    {
        match outcome {
            Ok(NockchainResponse::Status { master_running, num_workers }) => Ok(
                (master_running, num_workers),
            ),
            Ok(NockchainResponse::Success) => Err(String::from_str("invalid response")),
            Err(e) => Err(e),
        }
    }

    /// Whether any node (local or external) is attached.
    pub fn is_connected(&self) -> (r: bool)
        ensures
            r == !(self.mode_spec() is Disconnected),
    {
        !matches!(self.mode, NodeMode::Disconnected)
    }

    /// The current mode.
    pub fn get_mode(&self) -> (r: &NodeMode)
        ensures
            r == self.mode_spec(),
    {
        &self.mode
    }

    /// The socket path to reach the node: the external path in `External`
    /// mode, and `None` otherwise, meaning "use the default local socket."
    pub fn socket_path(&self) -> (r: Option<&String>)
        ensures
            match r {
                Some(p) => self.mode_spec() matches NodeMode::External(q) && q == p,
                None => !(self.mode_spec() is External),
            },
    {
        match &self.mode {
            NodeMode::External(path) => Some(path),
            NodeMode::Local => None,
            NodeMode::Disconnected => None,
        }
    }
}

} // verus!
