//! The parameters of the initialization handshake, as plain values.

use crate::nixd::NixdAdapter;
use crate::text::owned;
use crate::uri::{workspace_uri, workspace_uri_of};
use vstd::prelude::*;

verus! {

/// How much of the traffic the server is asked to trace.
#[derive(Clone, Copy, Debug, PartialEq, Eq, Structural)]
pub enum TraceValue {
    Off,
    Messages,
    Verbose,
}

/// What the client can do with document symbols.
#[derive(Clone, Copy, Debug, PartialEq, Eq, Structural)]
pub struct DocumentSymbolCapability {
    pub dynamic_registration: Option<bool>,
    pub hierarchical_document_symbol_support: Option<bool>,
}

/// What the client can do with the targets of a jump.
#[derive(Clone, Copy, Debug, PartialEq, Eq, Structural)]
pub struct GotoCapability {
    pub dynamic_registration: Option<bool>,
    pub link_support: Option<bool>,
}

/// A capability of which the client states only whether it can be
/// registered dynamically.
#[derive(Clone, Copy, Debug, PartialEq, Eq, Structural)]
pub struct RegistrationCapability {
    pub dynamic_registration: Option<bool>,
}

/// The capabilities that the client announces. What is `None` is left
/// unsaid.
#[derive(Clone, Copy, Debug, PartialEq, Eq, Structural)]
pub struct ClientCapabilities {
    pub document_symbol: Option<DocumentSymbolCapability>,
    pub definition: Option<GotoCapability>,
    pub references: Option<RegistrationCapability>,
    pub workspace_symbol: Option<RegistrationCapability>,
}

/// A folder of the workspace.
#[derive(Clone, Debug, PartialEq, Eq)]
pub struct WorkspaceFolder {
    pub uri: String,
    pub name: String,
}

/// The client's name and version.
#[derive(Clone, Debug, PartialEq, Eq)]
pub struct ClientInfo {
    pub name: String,
    pub version: Option<String>,
}

/// The parameters of the initialization handshake.
#[derive(Clone, Debug, PartialEq, Eq)]
pub struct InitParams {
    /// The process that started the server.
    pub process_id: Option<u32>,
    /// The root of the workspace.
    pub root_uri: Option<String>,
    /// The command that the server is to format with; empty where the
    /// handshake carries no options.
    pub formatting_command: Vec<String>,
    pub capabilities: ClientCapabilities,
    pub trace: Option<TraceValue>,
    pub workspace_folders: Vec<WorkspaceFolder>,
    pub client_info: Option<ClientInfo>,
}

/// What the contracts say of the parameters.
pub struct InitParamsModel {
    pub process_id: Option<u32>,
    pub root_uri: Option<Seq<char>>,
    pub formatting_command: Seq<Seq<char>>,
    pub capabilities: ClientCapabilities,
    pub trace: Option<TraceValue>,
    /// The folders, each as its URI and its name.
    pub workspace_folders: Seq<(Seq<char>, Seq<char>)>,
    /// The client's name and version.
    pub client_info: Option<(Seq<char>, Option<Seq<char>>)>,
}

impl View for InitParams {
    type V = InitParamsModel;

    open spec fn view(&self) -> InitParamsModel {
        InitParamsModel {
            process_id: self.process_id,
            root_uri: match self.root_uri {
                Some(uri) => Some(uri@),
                None => None,
            },
            formatting_command: Seq::new(
                self.formatting_command@.len(),
                |i: int| self.formatting_command@[i]@,
            ),
            capabilities: self.capabilities,
            trace: self.trace,
            workspace_folders: Seq::new(
                self.workspace_folders@.len(),
                |i: int| (self.workspace_folders@[i].uri@, self.workspace_folders@[i].name@),
            ),
            client_info: match self.client_info {
                Some(info) => Some(
                    (
                        info.name@,
                        match info.version {
                            Some(version) => Some(version@),
                            None => None,
                        },
                    ),
                ),
                None => None,
            },
        }
    }
}

/// The capabilities that the client announces to `nixd`: hierarchical
/// document symbols, jumps to definitions without links, references and
/// workspace symbols, none of them registered dynamically.
pub open spec fn nixd_capabilities() -> ClientCapabilities {
    ClientCapabilities {
        document_symbol: Some(
            DocumentSymbolCapability {
                dynamic_registration: Some(false),
                hierarchical_document_symbol_support: Some(true),
            },
        ),
        definition: Some(
            GotoCapability { dynamic_registration: Some(false), link_support: Some(false) },
        ),
        references: Some(RegistrationCapability { dynamic_registration: Some(false) }),
        workspace_symbol: Some(RegistrationCapability { dynamic_registration: Some(false) }),
    }
}

/// The handshake with `nixd` for the workspace at `uri`, started by the
/// process `process_id`: the workspace is the root and the only folder,
/// `nixpkgs-fmt` formats, and nothing is traced.
pub open spec fn nixd_init_params(process_id: u32, uri: Seq<char>) -> InitParamsModel {
    InitParamsModel {
        process_id: Some(process_id),
        root_uri: Some(uri),
        formatting_command: seq!["nixpkgs-fmt"@],
        capabilities: nixd_capabilities(),
        trace: Some(TraceValue::Off),
        workspace_folders: seq![(uri, "nixd-workspace"@)],
        client_info: Some(("lsif-indexer"@, Some("0.1.0"@))),
    }
}

impl NixdAdapter {
    /// The handshake with `nixd` for the workspace at `workspace_uri`.
    pub fn init_params_for(&self, process_id: u32, workspace_uri: &str) -> (params: InitParams)
        ensures
            params@ == nixd_init_params(process_id, workspace_uri@),
    {
        let mut formatting_command: Vec<String> = Vec::new();
        formatting_command.push(owned("nixpkgs-fmt"));
        let mut workspace_folders: Vec<WorkspaceFolder> = Vec::new();
        workspace_folders.push(
            WorkspaceFolder { uri: owned(workspace_uri), name: owned("nixd-workspace") },
        );
        let params = InitParams {
            process_id: Some(process_id),
            root_uri: Some(owned(workspace_uri)),
            formatting_command,
            capabilities: ClientCapabilities {
                document_symbol: Some(
                    DocumentSymbolCapability {
                        dynamic_registration: Some(false),
                        hierarchical_document_symbol_support: Some(true),
                    },
                ),
                definition: Some(
                    GotoCapability { dynamic_registration: Some(false), link_support: Some(false) },
                ),
                references: Some(RegistrationCapability { dynamic_registration: Some(false) }),
                workspace_symbol: Some(
                    RegistrationCapability { dynamic_registration: Some(false) },
                ),
            },
            trace: Some(TraceValue::Off),
            workspace_folders,
            client_info: Some(
                ClientInfo { name: owned("lsif-indexer"), version: Some(owned("0.1.0")) },
            ),
        };
        proof {
            let expected = nixd_init_params(process_id, workspace_uri@);
            assert(params@.formatting_command =~= expected.formatting_command);
            assert(params@.workspace_folders =~= expected.workspace_folders);
        }
        params
    }

    /// The handshake with `nixd` for the workspace in the directory
    /// `current_dir`, whose canonical form is `canonical_dir`, started by
    /// the process `process_id`.
    ///
    /// The workspace URI is the `file` URL of the directory. Where the
    /// directory cannot be turned into one, it is the URL parsed from the
    /// canonical form behind `file://`, and where that fails too,
    /// `file:///tmp`.
    pub fn get_init_params(&self, process_id: u32, current_dir: &str, canonical_dir: &str) -> (params: InitParams)
        ensures
            params@ == nixd_init_params(process_id, workspace_uri(current_dir@, canonical_dir@)),
    {
        let uri = workspace_uri_of(current_dir, canonical_dir);
        self.init_params_for(process_id, uri.as_str())
    }
}

} // verus!
