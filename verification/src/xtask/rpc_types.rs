//! The requests and responses of the remote file interface: JSON-RPC
//! 2.0 with the methods `pushFile` and `getDefinitionFile`.

use vstd::prelude::*;

verus! {

/// A request.
#[derive(Debug, Clone, PartialEq, Eq)]
pub struct RpcRequest<T> {
    pub jsonrpc: String,
    pub id: u64,
    pub method: String,
    pub params: T,
}

/// A response.
#[derive(Debug, Clone, PartialEq, Eq)]
pub struct RpcResponse<T> {
    pub jsonrpc: String,
    pub id: u64,
    pub result: T,
    pub error: Option<String>,
}

/// The parameters of `pushFile`.
#[derive(Debug, Clone, PartialEq, Eq)]
pub struct PushFileParams {
    pub filename: String,
    pub content: String,
    pub server: String,
}

impl RpcRequest<PushFileParams> {
    /// The request that creates or overwrites the file `filename` on
    /// `server` with `content`.
    pub fn push_file(id: u64, server: &str, filename: &str, content: String) -> (request: RpcRequest<
        PushFileParams,
    >)
        ensures
            request.jsonrpc@ == "2.0"@,
            request.id == id,
            request.method@ == "pushFile"@,
            request.params.filename@ == filename@,
            request.params.content@ == content@,
            request.params.server@ == server@,
    {
        RpcRequest {
            jsonrpc: "2.0".to_owned(),
            id,
            method: "pushFile".to_owned(),
            params: PushFileParams {
                filename: filename.to_owned(),
                content,
                server: server.to_owned(),
            },
        }
    }
}

impl RpcRequest<()> {
    /// The request for the file of definitions of the host's interface.
    pub fn get_definition_file(id: u64) -> (request: RpcRequest<()>)
        ensures
            request.jsonrpc@ == "2.0"@,
            request.id == id,
            request.method@ == "getDefinitionFile"@,
    {
        RpcRequest {
            jsonrpc: "2.0".to_owned(),
            id,
            method: "getDefinitionFile".to_owned(),
            params: (),
        }
    }
}

} // verus!
