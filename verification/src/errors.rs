use vstd::prelude::*;
use vstd::string::StringExecFns;

verus! {

/// A structurally invalid request.
///
/// Node-level failures and the divergence safeguard are recorded inside the
/// returned snapshot, never raised as an error; only misuse of the command
/// surface is.
#[derive(Debug, PartialEq, Eq)]
pub enum DebugError {
    /// The referenced node id is not a key of the flow graph.
    UnknownNode(String),
    /// A command was issued against a session that is already
    /// completed, failed or stopped.
    SessionTerminated,
    /// A document handed to `deserialize` is not a serialized snapshot.
    MalformedSnapshot,
}

/// The mathematical abstraction of a `DebugError`.
pub ghost enum ErrorModel {
    UnknownNode(Seq<char>),
    SessionTerminated,
    MalformedSnapshot,
}

impl View for DebugError {
    type V = ErrorModel;

    open spec fn view(&self) -> ErrorModel {
        match self {
            DebugError::UnknownNode(id) => ErrorModel::UnknownNode(id@),
            DebugError::SessionTerminated => ErrorModel::SessionTerminated,
            DebugError::MalformedSnapshot => ErrorModel::MalformedSnapshot,
        }
    }
}

impl DebugError {
    /// A human-readable description of the error.
    pub fn describe(&self) -> (r: String)
        ensures
            r@ == self.spec_describe(),
    {
        match self {
            DebugError::UnknownNode(id) => {
                let mut s = String::from_str("unknown node: ");
                s.append(id.as_str());
                s
            },
            DebugError::SessionTerminated => String::from_str("session is already terminated"),
            DebugError::MalformedSnapshot => String::from_str("malformed session snapshot"),
        }
    }

    /// The description, as a spec-level sequence of characters.
    pub open spec fn spec_describe(&self) -> Seq<char> {
        match self {
            DebugError::UnknownNode(id) => "unknown node: "@ + id@,
            DebugError::SessionTerminated => "session is already terminated"@,
            DebugError::MalformedSnapshot => "malformed session snapshot"@,
        }
    }
}

} // verus!
