//! Code-generation engine for API service descriptions.
//!
//! A schema (a [`service::Config`] shared by a run, plus one [`service::Service`]
//! per service document) is validated and then rendered deterministically into
//! backend source text. The backend abstraction is the [`codegen::CodeGenerator`]
//! trait; [`codegen_rust::server::RustServer`] is the concrete backend for an
//! actix-web server target. [`pipeline::generate`] drives one whole run:
//! validate, order the services, render, and hand back the artifacts as
//! path/content pairs. All rendering is pure string construction; reading the
//! schema documents and writing the artifacts to disk belong to the caller.

use vstd::prelude::*;

pub mod codegen;
pub mod codegen_rust;
pub mod naming;
pub mod pipeline;
pub mod service;
pub mod text;
pub mod validate;

pub use codegen::CodeGenerator;
pub use codegen_rust::server::RustServer;
pub use service::Config;
pub use service::Endpoint;
pub use service::EndpointError;
pub use service::EndpointMethod;
pub use service::Principal;
pub use service::Service;
pub use service::Type;
pub use validate::ValidationError;

verus! {

/// Failure taxonomy of a generation run.
///
/// Validation failures are raised before any rendering; the I/O and
/// post-build variants exist for the orchestrator around the engine, which
/// performs the reads, writes and external commands of a run.
#[derive(Debug)]
pub enum Error {
    /// A schema document could not be read or parsed.
    SchemaIo(String),
    /// The schema breaks a referential or uniqueness invariant.
    SchemaValidation(crate::validate::ValidationError),
    /// An output artifact could not be written.
    RenderIo(String),
    /// A post-build command exited with the given non-zero status.
    PostBuildCommand(String, i32),
}

} // verus!
