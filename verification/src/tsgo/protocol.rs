//! The messages of the language server protocol.
use vstd::prelude::*;

verus! {

/// The version of the remote procedure calls.
pub const JSON_RPC: &'static str = "2.0";

/// A request, which is answered under its number.
#[derive(Debug)]
pub struct JsonRpcRequest<T> {
    pub jsonrpc: &'static str,
    pub id: u32,
    pub method: &'static str,
    pub params: T,
}

impl<T> JsonRpcRequest<T> {
    pub fn new(id: u32, method: &'static str, params: T) -> (r: Self)
        ensures
            r.jsonrpc@ == "2.0"@,
            r.id == id,
            r.method@ == method@,
            r.params == params,
    {
        JsonRpcRequest { jsonrpc: JSON_RPC, id, method, params }
    }
}

/// A notification, which is not answered.
#[derive(Debug)]
pub struct JsonRpcNotification<T> {
    pub jsonrpc: &'static str,
    pub method: &'static str,
    pub params: T,
}

impl<T> JsonRpcNotification<T> {
    pub fn new(method: &'static str, params: T) -> (r: Self)
        ensures
            r.jsonrpc@ == "2.0"@,
            r.method@ == method@,
            r.params == params,
    {
        JsonRpcNotification { jsonrpc: JSON_RPC, method, params }
    }
}

/// The number or name of a request.
#[derive(Clone, Debug)]
pub enum JsonRpcId {
    Number(u32),
    String(String),
}

/// The answer to a request.
pub struct JsonRpcResponse<T> {
    pub jsonrpc: String,
    pub id: Option<JsonRpcId>,
    pub result: Option<T>,
    pub error: Option<JsonRpcError>,
}

pub struct JsonRpcError {
    pub code: i32,
    pub message: String,
    pub data: Option<serde_json::Value>,
}

#[derive(Debug)]
pub struct InitializeParams {
    pub process_id: Option<u32>,
    pub root_uri: Option<String>,
    pub capabilities: ClientCapabilities,
}

#[derive(Debug)]
pub struct ClientCapabilities {
    pub text_document: TextDocumentClientCapabilities,
}

#[derive(Debug)]
pub struct TextDocumentClientCapabilities {
    pub hover: HoverClientCapabilities,
}

#[derive(Debug)]
pub struct HoverClientCapabilities {
    pub content_format: Vec<String>,
}

#[derive(Debug)]
pub struct InitializeResult {
    pub capabilities: ServerCapabilities,
}

#[derive(Debug)]
pub struct ServerCapabilities {
    pub hover_provider: Option<bool>,
    pub text_document_sync: Option<TextDocumentSyncOptions>,
}

#[derive(Debug)]
pub struct TextDocumentSyncOptions {
    pub open_close: Option<bool>,
    pub change: Option<u32>,
}

#[derive(Debug)]
pub struct DidOpenTextDocumentParams {
    pub text_document: TextDocumentItem,
}

#[derive(Debug)]
pub struct TextDocumentItem {
    pub uri: String,
    pub language_id: String,
    pub version: i32,
    pub text: String,
}

#[derive(Debug)]
pub struct DidCloseTextDocumentParams {
    pub text_document: TextDocumentIdentifier,
}

#[derive(Debug)]
pub struct DidChangeTextDocumentParams {
    pub text_document: VersionedTextDocumentIdentifier,
    pub content_changes: Vec<TextDocumentContentChangeEvent>,
}

#[derive(Debug)]
pub struct VersionedTextDocumentIdentifier {
    pub uri: String,
    pub version: i32,
}

/// A change of a document; without a range, of the whole document.
#[derive(Debug)]
pub struct TextDocumentContentChangeEvent {
    pub range: Option<Range>,
    pub text: String,
}

#[derive(Clone, Debug)]
pub struct TextDocumentIdentifier {
    pub uri: String,
}

#[derive(Debug)]
pub struct HoverParams {
    pub text_document: TextDocumentIdentifier,
    pub position: Position,
}

#[derive(Clone, Copy, Debug, PartialEq, Eq, Structural)]
pub struct Position {
    pub line: u32,
    pub character: u32,
}

#[derive(Debug)]
pub struct Hover {
    pub contents: HoverContents,
    pub range: Option<Range>,
}

#[derive(Debug)]
pub enum HoverContents {
    Single(MarkedStringOrMarkup),
    Array(Vec<MarkedStringOrMarkup>),
}

#[derive(Debug)]
pub enum MarkedStringOrMarkup {
    String(String),
    MarkupContent(MarkupContent),
    MarkedString(MarkedString),
}

#[derive(Debug)]
pub struct MarkupContent {
    pub kind: String,
    pub value: String,
}

#[derive(Debug)]
pub struct MarkedString {
    pub language: String,
    pub value: String,
}

#[derive(Clone, Copy, Debug, PartialEq, Eq, Structural)]
pub struct Range {
    pub start: Position,
    pub end: Position,
}

#[derive(Debug)]
pub struct ShutdownParams {}

/// What is sent to start a session.
pub fn initialize_params(process_id: u32, root_uri: &str) -> (r: InitializeParams)
    ensures
        r.process_id == Some(process_id),
        r.root_uri is Some,
        r.root_uri->0@ == root_uri@,
        r.capabilities.text_document.hover.content_format@.len() == 1,
        r.capabilities.text_document.hover.content_format@[0]@ == "plaintext"@,
{
    let mut content_format: Vec<String> = Vec::new();
    content_format.push("plaintext".to_owned());
    InitializeParams {
        process_id: Some(process_id),
        root_uri: Some(root_uri.to_owned()),
        capabilities: ClientCapabilities {
            text_document: TextDocumentClientCapabilities {
                hover: HoverClientCapabilities { content_format },
            },
        },
    }
}

} // verus!
