//! Sandboxing: which operations the bot's process keeps once its sandbox is active.

use vstd::prelude::*;
use super::err::FrameworkError;

verus! {

/// An operation that the sandbox allows.
#[derive(Clone, Debug, PartialEq, Eq)]
pub enum SandboxOperation {
    /// Opening outbound network connections to any address.
    NetworkOutbound,
    /// Reading any file under the given directory.
    FileReadAll(String),
}

/// The operations that the sandbox allows: outbound network connections, and reading from the
/// data directory where there is one.
pub open spec fn sandbox_profile(data_dir_path: Option<Seq<char>>) -> Seq<SandboxOperationView> {
    match data_dir_path {
        None => seq![SandboxOperationView::NetworkOutbound],
        Some(p) => seq![SandboxOperationView::NetworkOutbound, SandboxOperationView::FileReadAll(p)],
    }
}

/// An allowed operation as a mathematical value.
pub ghost enum SandboxOperationView {
    /// Opening outbound network connections.
    NetworkOutbound,
    /// Reading any file under the directory.
    FileReadAll(Seq<char>),
}

impl View for SandboxOperation {
    type V = SandboxOperationView;

    open spec fn view(&self) -> SandboxOperationView {
        match self {
            SandboxOperation::NetworkOutbound => SandboxOperationView::NetworkOutbound,
            SandboxOperation::FileReadAll(p) => SandboxOperationView::FileReadAll(p@),
        }
    }
}

/// The views of a list of operations.
pub open spec fn operation_views(ops: Seq<SandboxOperation>) -> Seq<SandboxOperationView> {
    Seq::new(ops.len(), |i: int| ops[i]@)
}

/// The sandbox to put around the running process, which may then initiate network connections
/// and read from the designated data directory: on a platform that offers a sandbox, the
/// operations it is to allow (which the caller hands to the platform's sandbox); elsewhere
/// `SandboxUnsupported`.
///
/// The data directory is not expected to hold the bot's main configuration file, which must be
/// read before the sandbox is activated.
pub fn activate(data_dir_path: Option<String>, platform_has_sandbox: bool) -> (r: Result<Vec<SandboxOperation>, FrameworkError>)
    ensures
        !platform_has_sandbox ==> r matches Err(FrameworkError::SandboxUnsupported),
        platform_has_sandbox ==> (r matches Ok(ops) && operation_views(ops@) == sandbox_profile(
            match data_dir_path {
                Some(p) => Some(p@),
                None => None,
            },
        )),
{
    if !platform_has_sandbox {
        return Err(FrameworkError::SandboxUnsupported);
    }
    let ghost dir = match &data_dir_path {
        Some(p) => Some(p@),
        None => None,
    };
    let mut ops: Vec<SandboxOperation> = Vec::new();
    ops.push(SandboxOperation::NetworkOutbound);
    match data_dir_path {
        Some(p) => {
            ops.push(SandboxOperation::FileReadAll(p));
        },
        None => {},
    }
    assert(operation_views(ops@) =~= sandbox_profile(dir));
    Ok(ops)
}

} // verus!
