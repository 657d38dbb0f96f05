//! The schema model: the immutable in-memory description of a run.
//!
//! A run is described by one [`Config`] (project name, authenticated-caller
//! principals, declared error kinds) shared by every service, plus one
//! [`Service`] per service document. Ordered field mappings are held as
//! vectors of name/type pairs: their order is significant and is preserved
//! verbatim into the emitted field and route order.

use vstd::prelude::*;

verus! {

/// A primitive field kind. A closed enumeration: every backend must map each
/// variant, exhaustively, to a primitive of its target.
#[derive(Debug, Clone, Copy, PartialEq, Eq, Structural)]
pub enum Type {
    String,
}

/// The transport method of an endpoint.
#[derive(Debug, Clone, Copy, PartialEq, Eq, Structural)]
pub enum EndpointMethod {
    Get,
    Post,
}

impl EndpointMethod {
    /// The lowercase wire name of the method.
    pub fn as_str(&self) -> (r: &'static str)
        ensures
            r@ == self.spec_str(),
    {
        match self {
            EndpointMethod::Get => "get",
            EndpointMethod::Post => "post",
        }
    }

    /// The lowercase wire name of the method.
    pub open spec fn spec_str(self) -> Seq<char> {
        match self {
            EndpointMethod::Get => "get"@,
            EndpointMethod::Post => "post"@,
        }
    }
}

impl Default for EndpointMethod {
    /// An endpoint that names no method is a post endpoint.
    fn default() -> (r: Self)
        ensures
            r == EndpointMethod::Post,
    {
        EndpointMethod::Post
    }
}

/// An ordered field mapping: one name/type pair per field, in declaration
/// order. Field names must be unique within one mapping (checked by
/// validation, before rendering).
pub type Fields = Vec<(String, Type)>;

/// One callable operation of a service: an id, optional request and response
/// field mappings (an absent mapping emits an empty record), an optional
/// reference to the [`Principal`] that gates it, and a transport method.
#[derive(Debug, Clone)]
pub struct Endpoint {
    pub id: String,
    pub req: Option<Fields>,
    pub res: Option<Fields>,
    pub principal: Option<String>,
    pub method: EndpointMethod,
}

/// One service: an id and its endpoints, in declaration order.
#[derive(Debug, Clone)]
pub struct Service {
    pub id: String,
    pub endpoints: Vec<Endpoint>,
}

/// An authenticated-caller identity type, with its typed attributes.
#[derive(Debug, Clone)]
pub struct Principal {
    pub id: String,
    pub attributes: Fields,
}

/// A declared failure kind, with an optional transport status code. A kind
/// without a code maps to the default status.
#[derive(Debug, Clone)]
pub struct EndpointError {
    pub id: String,
    pub code: Option<u16>,
}

/// The global configuration of a run, shared by all its services.
#[derive(Debug, Clone)]
pub struct Config {
    pub project_name: String,
    pub principals: Vec<Principal>,
    pub errors: Vec<EndpointError>,
}

/// The names of a field mapping, in order.
pub open spec fn field_names(fs: Seq<(String, Type)>) -> Seq<Seq<char>> {
    fs.map_values(|f: (String, Type)| f.0@)
}

/// The ids of a sequence of principals, in order.
pub open spec fn principal_ids(ps: Seq<Principal>) -> Seq<Seq<char>> {
    ps.map_values(|p: Principal| p.id@)
}

/// The ids of a sequence of declared error kinds, in order.
pub open spec fn error_ids(es: Seq<EndpointError>) -> Seq<Seq<char>> {
    es.map_values(|e: EndpointError| e.id@)
}

/// The ids of a sequence of endpoints, in order.
pub open spec fn endpoint_ids(es: Seq<Endpoint>) -> Seq<Seq<char>> {
    es.map_values(|e: Endpoint| e.id@)
}

/// The ids of a sequence of services, in order.
pub open spec fn service_ids(ss: Seq<Service>) -> Seq<Seq<char>> {
    ss.map_values(|s: Service| s.id@)
}

} // verus!
