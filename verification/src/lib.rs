//! Verified grammar, encoding, and boundary logic for native Quadlet documents.

pub mod capability;
pub mod charset;
pub mod document;
pub mod container;
pub mod dns;
pub mod encode;
pub mod execution;
pub mod export;
pub mod grammar;
pub mod graph;
pub mod grouping;
pub mod health;
pub mod healthcheck;
pub mod image;
pub mod host;
pub mod ipam;
pub mod issue;
pub mod mount;
pub mod network;
pub mod number;
pub mod output;
pub mod path;
pub mod pod;
pub mod port;
pub mod relations;
pub mod scalar;
pub mod secret;
pub mod security;
pub mod service;
pub mod source;
pub mod target;
pub mod text;
pub mod volume;

pub use export::{QuadletExporter, QuadletExporterError, QuadletGroupingPolicy};
pub use output::{QuadletFile, QuadletOutput};
pub use source::{
    QuadletDocumentInput, QuadletNativeFinding, QuadletParseDiagnostic, QuadletParseDiagnosticLabel,
    QuadletParseDiagnosticOrigin, QuadletParseDiagnosticSeverity, QuadletParseError, QuadletParseFailure,
    QuadletParseFailureStage, QuadletParseResult, QuadletSource,
};

/// The native Quadlet library this crate reads and writes through.
pub use quadlet_lens;
