//! The rendering engine for a Rust actix-web server target.
//!
//! Every emitted artifact is pinned, by the contracts below, to a spec-level
//! text function of the schema, so output is deterministic: rendering the
//! same schema twice yields byte-identical text.

use vstd::prelude::*;
use vstd::string::StringExecFns;
use crate::naming::pascal_of;
use crate::naming::pascal_case;
use crate::service::Config;
use crate::service::Endpoint;
use crate::service::EndpointError;
use crate::service::Fields;
use crate::service::Principal;
use crate::service::Service;
use crate::service::Type;
use crate::text::cat_map;
use crate::text::contains_string;
use crate::text::dec_str;
use crate::text::string_views;
use crate::text::u16_to_dec;

verus! {

/// The backend that renders a schema into one actix-web server crate.
pub struct RustServer;

/// The transport status every declared error kind without an explicit code
/// maps to, and the status of the implicit internal variant.
pub const DEFAULT_ERROR_STATUS: u16 = 500;

/// The target primitive for each abstract field kind.
pub open spec fn spec_rust_type(t: Type) -> Seq<char> {
    match t {
        Type::String => "String"@,
    }
}

/// Maps an abstract field kind to the target's primitive representation.
/// The match is exhaustive: a new kind forces a new arm.
pub fn rust_type(t: &Type) -> (r: String)
    ensures
        r@ == spec_rust_type(*t),
{
    match t {
        Type::String => String::from_str("String"),
    }
}

/// The name of the transport handler derived from an endpoint id.
pub open spec fn spec_http_endpoint_fn(id: Seq<char>) -> Seq<char> {
    "http_handler_"@ + id
}

/// Derives the transport-handler function name of an endpoint: a pure
/// function of the endpoint id.
pub fn http_endpoint_fn(e: &Endpoint) -> (r: String)
    ensures
        r@ == spec_http_endpoint_fn(e.id@),
{
    let mut r = String::from_str("http_handler_");
    r.append(e.id.as_str());
    r
}

/// The transport status an error kind maps to: its declared code if present,
/// else the default. Total over all error kinds by construction.
pub open spec fn spec_error_status(e: EndpointError) -> u16 {
    match e.code {
        Some(c) => c,
        None => DEFAULT_ERROR_STATUS,
    }
}

/// The status a declared error kind maps to: the explicit code if one was
/// declared, else the specified default. Defined for every error kind.
pub fn error_status(e: &EndpointError) -> (r: u16)
    ensures
        r == spec_error_status(*e),
{
    match e.code {
        Some(c) => c,
        None => DEFAULT_ERROR_STATUS,
    }
}

/// The principal ids that gate the endpoints, in endpoint order, one entry
/// per gated endpoint.
pub open spec fn gated_principals(es: Seq<Endpoint>) -> Seq<Seq<char>>
    decreases es.len(),
{
    if es.len() == 0 {
        Seq::empty()
    } else {
        gated_principals(es.drop_last()) + match es.last().principal {
            Some(p) => seq![p@],
            None => Seq::empty(),
        }
    }
}

/// The entries of `s` with every later repetition of an entry dropped: each
/// entry keeps its first occurrence's position.
pub open spec fn dedup_first(s: Seq<Seq<char>>) -> Seq<Seq<char>>
    decreases s.len(),
{
    if s.len() == 0 {
        Seq::empty()
    } else if s.drop_last().contains(s.last()) {
        dedup_first(s.drop_last())
    } else {
        dedup_first(s.drop_last()) + seq![s.last()]
    }
}

/// The distinct principals a service's endpoints are gated by, in first-use
/// order: the route registration takes exactly one resolver for each.
pub open spec fn distinct_gated(es: Seq<Endpoint>) -> Seq<Seq<char>> {
    dedup_first(gated_principals(es))
}

/// De-duplication keeps exactly the ids that occur: an id is in the
/// de-duplicated sequence if and only if it is in the original one.
pub proof fn lemma_dedup_first_membership(s: Seq<Seq<char>>, x: Seq<char>)
    ensures
        dedup_first(s).contains(x) <==> s.contains(x),
    decreases s.len(),
{
    if s.len() > 0 {
        lemma_dedup_first_membership(s.drop_last(), x);
        assert(s.contains(x) <==> (s.drop_last().contains(x) || s.last() == x)) by {
            if s.contains(x) {
                let i = choose|i: int| 0 <= i < s.len() && s[i] == x;
                if i < s.len() - 1 {
                    assert(s.drop_last()[i] == x);
                }
            }
            if s.drop_last().contains(x) {
                let i = choose|i: int| 0 <= i < s.drop_last().len() && s.drop_last()[i] == x;
                assert(s[i] == x);
            }
            if s.last() == x {
                assert(s[s.len() - 1] == x);
            }
        }
        if !s.drop_last().contains(s.last()) {
            let d = dedup_first(s.drop_last());
            assert(dedup_first(s) == d + seq![s.last()]);
            assert(dedup_first(s).contains(x) <==> (d.contains(x) || s.last() == x)) by {
                if dedup_first(s).contains(x) {
                    let i = choose|i: int|
                        0 <= i < dedup_first(s).len() && dedup_first(s)[i] == x;
                    if i < d.len() {
                        assert(d[i] == x);
                    } else {
                        assert(dedup_first(s)[i] == s.last());
                    }
                }
                if d.contains(x) {
                    let i = choose|i: int| 0 <= i < d.len() && d[i] == x;
                    assert((d + seq![s.last()])[i] == x);
                }
                assert((d + seq![s.last()])[d.len() as int] == s.last());
            }
        }
    }
}

/// De-duplication leaves no repetition: no id appears twice in the
/// de-duplicated sequence.
pub proof fn lemma_dedup_first_distinct(s: Seq<Seq<char>>)
    ensures
        forall|i: int, j: int|
            0 <= i < j < dedup_first(s).len() ==> dedup_first(s)[i] != dedup_first(s)[j],
    decreases s.len(),
{
    if s.len() > 0 {
        lemma_dedup_first_distinct(s.drop_last());
        if !s.drop_last().contains(s.last()) {
            let d = dedup_first(s.drop_last());
            lemma_dedup_first_membership(s.drop_last(), s.last());
            assert(!d.contains(s.last()));
            assert forall|i: int, j: int|
                0 <= i < j < dedup_first(s).len() implies dedup_first(s)[i] != dedup_first(
                s,
            )[j] by {
                if j < d.len() {
                } else {
                    assert(dedup_first(s)[j] == s.last());
                    assert(dedup_first(s)[i] == d[i]);
                    assert(d.contains(d[i]));
                }
            }
        }
    }
}

/// One emitted record field: `pub <name>: <type>,`.
pub open spec fn field_text(f: (String, Type)) -> Seq<char> {
    "pub "@ + f.0@ + ": "@ + spec_rust_type(f.1) + ","@
}

/// The fields of one mapping, in declaration order.
pub open spec fn fields_text(fs: Seq<(String, Type)>) -> Seq<char> {
    cat_map(fs, |f: (String, Type)| field_text(f))
}

proof fn lemma_fields_text_step(fs: Seq<(String, Type)>, i: int)
    requires
        0 <= i < fs.len(),
    ensures
        fields_text(fs.take(i + 1)) == fields_text(fs.take(i)) + field_text(fs[i]),
{
    assert(fs.take(i + 1).drop_last() =~= fs.take(i));
    assert(fs.take(i + 1).last() == fs[i]);
}

/// The fields of an optional mapping: an absent mapping emits no fields (the
/// record around them is still emitted, empty).
pub open spec fn opt_fields_text(o: Option<Fields>) -> Seq<char> {
    match o {
        Some(fs) => fields_text(fs@),
        None => Seq::empty(),
    }
}

/// One variant of the emitted error taxonomy.
pub open spec fn error_variant_text(e: EndpointError) -> Seq<char> {
    "#[display(fmt = \""@ + e.id@ + "\")] "@ + pascal_of(e.id@) + ","@
}

/// The variants of all declared error kinds, in declaration order.
pub open spec fn error_variants_text(es: Seq<EndpointError>) -> Seq<char> {
    cat_map(es, |e: EndpointError| error_variant_text(e))
}

proof fn lemma_error_variants_text_step(es: Seq<EndpointError>, i: int)
    requires
        0 <= i < es.len(),
    ensures
        error_variants_text(es.take(i + 1)) == error_variants_text(es.take(i))
            + error_variant_text(es[i]),
{
    assert(es.take(i + 1).drop_last() =~= es.take(i));
    assert(es.take(i + 1).last() == es[i]);
}

/// One arm of the emitted status match: present only for an error kind with
/// an explicit code; kinds without one fall to the default arm.
pub open spec fn status_arm_text(e: EndpointError) -> Seq<char> {
    match e.code {
        Some(c) => "Self::"@ + pascal_of(e.id@) + " => actix_web::http::StatusCode::from_u16("@
            + dec_str(c as nat) + ").unwrap(),"@,
        None => Seq::empty(),
    }
}

/// The explicit status arms of all declared error kinds, in order.
pub open spec fn status_arms_text(es: Seq<EndpointError>) -> Seq<char> {
    cat_map(es, |e: EndpointError| status_arm_text(e))
}

proof fn lemma_status_arms_text_step(es: Seq<EndpointError>, i: int)
    requires
        0 <= i < es.len(),
    ensures
        status_arms_text(es.take(i + 1)) == status_arms_text(es.take(i)) + status_arm_text(es[i]),
{
    assert(es.take(i + 1).drop_last() =~= es.take(i));
    assert(es.take(i + 1).last() == es[i]);
}

/// One emitted principal record type.
pub open spec fn principal_text(p: Principal) -> Seq<char> {
    "#[derive(Debug, Clone, serde::Serialize, serde::Deserialize)] pub struct "@ + pascal_of(p.id@)
        + "Principal {"@ + fields_text(p.attributes@) + "}"@
}

/// The record types of all principals, in declaration order.
pub open spec fn principals_text(ps: Seq<Principal>) -> Seq<char> {
    cat_map(ps, |p: Principal| principal_text(p))
}

proof fn lemma_principals_text_step(ps: Seq<Principal>, i: int)
    requires
        0 <= i < ps.len(),
    ensures
        principals_text(ps.take(i + 1)) == principals_text(ps.take(i)) + principal_text(ps[i]),
{
    assert(ps.take(i + 1).drop_last() =~= ps.take(i));
    assert(ps.take(i + 1).last() == ps[i]);
}

/// The emitted error taxonomy: one variant per declared kind plus the
/// implicit internal variant wrapping unmodeled failures.
pub open spec fn error_enum_text(es: Seq<EndpointError>) -> Seq<char> {
    "#[derive(Debug, derive_more::Display)] pub enum Error {"@ + error_variants_text(es)
        + "#[display(fmt = \"internal_error\")] Internal(Box<dyn std::error::Error>),"@ + "}"@
        + "impl<T: std::error::Error + 'static> From<T> for Error {"@
        + "fn from(err: T) -> Self { Error::Internal(Box::new(err)) }"@ + "}"@
}

/// The emitted status mapping: one explicit arm per coded kind, and a default
/// arm that gives every other variant, the implicit internal one included,
/// the default status.
pub open spec fn response_error_text(es: Seq<EndpointError>) -> Seq<char> {
    "impl actix_web::error::ResponseError for Error {"@
        + "fn error_response(&self) -> actix_web::HttpResponse {"@
        + "actix_web::dev::HttpResponseBuilder::new(self.status_code()).body(self.to_string())"@
        + "}"@ + "fn status_code(&self) -> actix_web::http::StatusCode { match *self {"@
        + status_arms_text(es) + "_ => actix_web::http::StatusCode::INTERNAL_SERVER_ERROR,"@
        + "} }"@ + "}"@
}

/// The whole global artifact: the error taxonomy with its total status
/// mapping, the resolver contract, and one record type per principal.
pub open spec fn config_text(c: Config) -> Seq<char> {
    "pub use actix_web;"@ + "pub use async_trait;"@ + "pub mod core {"@ + error_enum_text(c.errors@)
        + response_error_text(c.errors@)
        + "#[async_trait::async_trait(?Send)] pub trait HttpPrincipalResolver<P> {"@
        + "async fn resolve(&self, req: actix_web::HttpRequest) -> Result<P, Error>;"@ + "}"@
        + principals_text(c.principals@) + "}"@
}

/// The request and response record types of one endpoint, one field per
/// mapping entry in original order; an absent mapping yields an empty record.
pub open spec fn records_text(e: Endpoint) -> Seq<char> {
    "#[derive(Debug, Clone, serde::Serialize, serde::Deserialize)] pub struct "@ + pascal_of(e.id@)
        + "Request {"@ + opt_fields_text(e.req) + "}"@
        + "#[derive(Debug, Clone, serde::Serialize, serde::Deserialize)] pub struct "@ + pascal_of(
        e.id@,
    ) + "Response {"@ + opt_fields_text(e.res) + "}"@
}

/// The record types of all endpoints, in declaration order.
pub open spec fn records_list_text(es: Seq<Endpoint>) -> Seq<char> {
    cat_map(es, |e: Endpoint| records_text(e))
}

proof fn lemma_records_list_text_step(es: Seq<Endpoint>, i: int)
    requires
        0 <= i < es.len(),
    ensures
        records_list_text(es.take(i + 1)) == records_list_text(es.take(i)) + records_text(es[i]),
{
    assert(es.take(i + 1).drop_last() =~= es.take(i));
    assert(es.take(i + 1).last() == es[i]);
}

/// One abstract operation of the emitted service contract, named after the
/// endpoint id; a gated endpoint's operation also takes the caller.
pub open spec fn trait_method_text(e: Endpoint) -> Seq<char> {
    "async fn "@ + e.id@ + "(&self, req: &"@ + pascal_of(e.id@) + "Request"@ + match e.principal {
        Some(p) => ", caller: &"@ + pascal_of(p@) + "Principal"@,
        None => Seq::empty(),
    } + ") -> Result<"@ + pascal_of(e.id@) + "Response, Error>;"@
}

/// The operations of the emitted service contract, in endpoint order.
pub open spec fn trait_methods_text(es: Seq<Endpoint>) -> Seq<char> {
    cat_map(es, |e: Endpoint| trait_method_text(e))
}

proof fn lemma_trait_methods_text_step(es: Seq<Endpoint>, i: int)
    requires
        0 <= i < es.len(),
    ensures
        trait_methods_text(es.take(i + 1)) == trait_methods_text(es.take(i)) + trait_method_text(
            es[i],
        ),
{
    assert(es.take(i + 1).drop_last() =~= es.take(i));
    assert(es.take(i + 1).last() == es[i]);
}

/// One transport handler: decode, resolve the caller when gated (failing
/// without invoking the operation), invoke, encode.
pub open spec fn handler_text(e: Endpoint) -> Seq<char> {
    "async fn "@ + spec_http_endpoint_fn(e.id@)
        + "(svc: actix_web::web::Data<dyn Service>, req: actix_web::web::Json<"@ + pascal_of(e.id@)
        + "Request>"@ + match e.principal {
        Some(p) => ", resolver: actix_web::web::Data<dyn HttpPrincipalResolver<"@ + pascal_of(p@)
            + "Principal>>, http_req: actix_web::HttpRequest"@,
        None => Seq::empty(),
    } + ") -> Result<actix_web::HttpResponse, Error> {"@ + "let result = svc."@ + e.id@ + "(&req"@
        + match e.principal {
        Some(_) => ", &resolver.resolve(http_req).await?"@,
        None => Seq::empty(),
    } + ").await?;"@ + "Ok(actix_web::HttpResponse::Ok().json(result))"@ + "}"@
}

/// The transport handlers of all endpoints, in order.
pub open spec fn handlers_text(es: Seq<Endpoint>) -> Seq<char> {
    cat_map(es, |e: Endpoint| handler_text(e))
}

proof fn lemma_handlers_text_step(es: Seq<Endpoint>, i: int)
    requires
        0 <= i < es.len(),
    ensures
        handlers_text(es.take(i + 1)) == handlers_text(es.take(i)) + handler_text(es[i]),
{
    assert(es.take(i + 1).drop_last() =~= es.take(i));
    assert(es.take(i + 1).last() == es[i]);
}

/// One resolver parameter of the emitted route registration, named after its
/// principal.
pub open spec fn resolver_param_text(p: Seq<char>) -> Seq<char> {
    ", resolver_"@ + p + ": std::sync::Arc<dyn HttpPrincipalResolver<"@ + pascal_of(p)
        + "Principal>>"@
}

/// The resolver parameters, one per distinct gating principal.
pub open spec fn resolver_params_text(ps: Seq<Seq<char>>) -> Seq<char> {
    cat_map(ps, |p: Seq<char>| resolver_param_text(p))
}

proof fn lemma_resolver_params_text_step(ps: Seq<Seq<char>>, i: int)
    requires
        0 <= i < ps.len(),
    ensures
        resolver_params_text(ps.take(i + 1)) == resolver_params_text(ps.take(i))
            + resolver_param_text(ps[i]),
{
    assert(ps.take(i + 1).drop_last() =~= ps.take(i));
    assert(ps.take(i + 1).last() == ps[i]);
}

/// The injection of one resolver into the emitted scope.
pub open spec fn resolver_data_text(p: Seq<char>) -> Seq<char> {
    ".app_data(actix_web::web::Data::from(resolver_"@ + p + "))"@
}

/// The resolver injections, one per distinct gating principal.
pub open spec fn resolver_datas_text(ps: Seq<Seq<char>>) -> Seq<char> {
    cat_map(ps, |p: Seq<char>| resolver_data_text(p))
}

proof fn lemma_resolver_datas_text_step(ps: Seq<Seq<char>>, i: int)
    requires
        0 <= i < ps.len(),
    ensures
        resolver_datas_text(ps.take(i + 1)) == resolver_datas_text(ps.take(i)) + resolver_data_text(
            ps[i],
        ),
{
    assert(ps.take(i + 1).drop_last() =~= ps.take(i));
    assert(ps.take(i + 1).last() == ps[i]);
}

/// One route entry, its path segment derived from the endpoint id.
pub open spec fn route_text(e: Endpoint) -> Seq<char> {
    ".service(actix_web::web::resource(\""@ + e.id@ + "\").route(actix_web::web::post().to("@
        + spec_http_endpoint_fn(e.id@) + ")))"@
}

/// The route entries of all endpoints, in order.
pub open spec fn routes_text(es: Seq<Endpoint>) -> Seq<char> {
    cat_map(es, |e: Endpoint| route_text(e))
}

proof fn lemma_routes_text_step(es: Seq<Endpoint>, i: int)
    requires
        0 <= i < es.len(),
    ensures
        routes_text(es.take(i + 1)) == routes_text(es.take(i)) + route_text(es[i]),
{
    assert(es.take(i + 1).drop_last() =~= es.take(i));
    assert(es.take(i + 1).last() == es[i]);
}

/// The emitted route registration: it takes the service implementation plus
/// exactly one resolver per distinct principal that gates an endpoint, and
/// registers one route per endpoint under the service's path segment.
pub open spec fn scope_text(s: Service) -> Seq<char> {
    "pub fn create_scope(svc: std::sync::Arc<dyn Service>"@ + resolver_params_text(
        distinct_gated(s.endpoints@),
    ) + ") -> actix_web::Scope {"@ + "actix_web::web::scope(\""@ + s.id@ + "\")"@
        + ".app_data(actix_web::web::Data::from(svc))"@ + resolver_datas_text(
        distinct_gated(s.endpoints@),
    ) + routes_text(s.endpoints@) + "}"@
}

/// The whole artifact of one service: a module named after the service id,
/// holding the records, the service contract, the handlers, and the route
/// registration.
pub open spec fn service_text(s: Service) -> Seq<char> {
    "pub mod "@ + s.id@ + " {"@ + "use crate::core::*;"@ + records_list_text(s.endpoints@)
        + "#[async_trait::async_trait] pub trait Service {"@ + trait_methods_text(s.endpoints@)
        + "}"@ + handlers_text(s.endpoints@) + scope_text(s) + "}"@
}

/// The scaffold manifest of the emitted crate, named after the project.
pub open spec fn manifest_text(c: Config) -> Seq<char> {
    "[package]\nname = \""@ + c.project_name@
        + "\"\nversion = \"0.1.0\"\nedition = \"2018\"\n\n[dependencies]\nactix-web = \"3\"\nasync-trait = \"0.1\"\nderive_more = \"0.99\"\nserde = { version = \"1\", features = [\"derive\"] }\n"@
}

/// The distinct principals that gate this service's endpoints, in first-use
/// order: exactly the resolvers its route registration takes.
pub fn distinct_principals(s: &Service) -> (r: Vec<String>)
    ensures
        string_views(r@) == distinct_gated(s.endpoints@),
{
    let ghost es = s.endpoints@;
    let mut out: Vec<String> = Vec::new();
    let mut i: usize = 0;
    assert(es.take(0) =~= Seq::<Endpoint>::empty());
    while i < s.endpoints.len()
        invariant
            i <= es.len(),
            es == s.endpoints@,
            string_views(out@) == distinct_gated(es.take(i as int)),
        decreases es.len() - i,
    {
        let ghost prev = gated_principals(es.take(i as int));
        proof {
            assert(es.take(i as int + 1).drop_last() =~= es.take(i as int));
            assert(es.take(i as int + 1).last() == es[i as int]);
        }
        let e = &s.endpoints[i];
        match &e.principal {
            Some(p) => {
                proof {
                    assert(gated_principals(es.take(i as int + 1)) =~= prev + seq![p@]);
                    assert((prev + seq![p@]).drop_last() =~= prev);
                    assert((prev + seq![p@]).last() == p@);
                    lemma_dedup_first_membership(prev, p@);
                }
                if !contains_string(&out, p) {
                    out.push(p.clone());
                    proof {
                        assert(string_views(out@) =~= dedup_first(prev) + seq![p@]);
                    }
                }
            },
            None => {
                proof {
                    assert(gated_principals(es.take(i as int + 1)) =~= prev);
                }
            },
        }
        i = i + 1;
    }
    proof {
        assert(es.take(es.len() as int) =~= es);
    }
    out
}

fn write_fields(fs: &Fields, w: &mut String)
    ensures
        final(w)@ == old(w)@ + fields_text(fs@),
{
    let mut i: usize = 0;
    assert(fields_text(fs@.take(0)) =~= Seq::<char>::empty());
    assert(w@ =~= old(w)@ + fields_text(fs@.take(0)));
    while i < fs.len()
        invariant
            i <= fs@.len(),
            w@ == old(w)@ + fields_text(fs@.take(i as int)),
        decreases fs@.len() - i,
    {
        let f = &fs[i];
        w.append("pub ");
        w.append(f.0.as_str());
        w.append(": ");
        let t = rust_type(&f.1);
        w.append(t.as_str());
        w.append(",");
        proof {
            lemma_fields_text_step(fs@, i as int);
            assert(w@ =~= old(w)@ + fields_text(fs@.take(i as int + 1)));
        }
        i = i + 1;
    }
    proof {
        assert(fs@.take(fs@.len() as int) =~= fs@);
    }
}

fn write_error_variants(es: &Vec<EndpointError>, w: &mut String)
    ensures
        final(w)@ == old(w)@ + error_variants_text(es@),
{
    let mut i: usize = 0;
    assert(error_variants_text(es@.take(0)) =~= Seq::<char>::empty());
    assert(w@ =~= old(w)@ + error_variants_text(es@.take(0)));
    while i < es.len()
        invariant
            i <= es@.len(),
            w@ == old(w)@ + error_variants_text(es@.take(i as int)),
        decreases es@.len() - i,
    {
        let e = &es[i];
        w.append("#[display(fmt = \"");
        w.append(e.id.as_str());
        w.append("\")] ");
        let n = pascal_case(e.id.as_str());
        w.append(n.as_str());
        w.append(",");
        proof {
            lemma_error_variants_text_step(es@, i as int);
            assert(w@ =~= old(w)@ + error_variants_text(es@.take(i as int + 1)));
        }
        i = i + 1;
    }
    proof {
        assert(es@.take(es@.len() as int) =~= es@);
    }
}

fn write_status_arms(es: &Vec<EndpointError>, w: &mut String)
    ensures
        final(w)@ == old(w)@ + status_arms_text(es@),
{
    let mut i: usize = 0;
    assert(status_arms_text(es@.take(0)) =~= Seq::<char>::empty());
    assert(w@ =~= old(w)@ + status_arms_text(es@.take(0)));
    while i < es.len()
        invariant
            i <= es@.len(),
            w@ == old(w)@ + status_arms_text(es@.take(i as int)),
        decreases es@.len() - i,
    {
        let e = &es[i];
        match e.code {
            Some(c) => {
                w.append("Self::");
                let n = pascal_case(e.id.as_str());
                w.append(n.as_str());
                w.append(" => actix_web::http::StatusCode::from_u16(");
                let d = u16_to_dec(c);
                w.append(d.as_str());
                w.append(").unwrap(),");
            },
            None => {},
        }
        proof {
            lemma_status_arms_text_step(es@, i as int);
            assert(w@ =~= old(w)@ + status_arms_text(es@.take(i as int + 1)));
        }
        i = i + 1;
    }
    proof {
        assert(es@.take(es@.len() as int) =~= es@);
    }
}

fn write_principals(ps: &Vec<Principal>, w: &mut String)
    ensures
        final(w)@ == old(w)@ + principals_text(ps@),
{
    let mut i: usize = 0;
    assert(principals_text(ps@.take(0)) =~= Seq::<char>::empty());
    assert(w@ =~= old(w)@ + principals_text(ps@.take(0)));
    while i < ps.len()
        invariant
            i <= ps@.len(),
            w@ == old(w)@ + principals_text(ps@.take(i as int)),
        decreases ps@.len() - i,
    {
        let p = &ps[i];
        w.append("#[derive(Debug, Clone, serde::Serialize, serde::Deserialize)] pub struct ");
        let n = pascal_case(p.id.as_str());
        w.append(n.as_str());
        w.append("Principal {");
        write_fields(&p.attributes, w);
        w.append("}");
        proof {
            lemma_principals_text_step(ps@, i as int);
            assert(w@ =~= old(w)@ + principals_text(ps@.take(i as int + 1)));
        }
        i = i + 1;
    }
    proof {
        assert(ps@.take(ps@.len() as int) =~= ps@);
    }
}

fn write_record(e: &Endpoint, w: &mut String)
    ensures
        final(w)@ == old(w)@ + records_text(*e),
{
    w.append("#[derive(Debug, Clone, serde::Serialize, serde::Deserialize)] pub struct ");
    let n = pascal_case(e.id.as_str());
    w.append(n.as_str());
    w.append("Request {");
    match &e.req {
        Some(fs) => write_fields(fs, w),
        None => {},
    }
    w.append("}");
    w.append("#[derive(Debug, Clone, serde::Serialize, serde::Deserialize)] pub struct ");
    w.append(n.as_str());
    w.append("Response {");
    match &e.res {
        Some(fs) => write_fields(fs, w),
        None => {},
    }
    w.append("}");
    proof {
        assert(w@ =~= old(w)@ + records_text(*e));
    }
}

fn write_records(es: &Vec<Endpoint>, w: &mut String)
    ensures
        final(w)@ == old(w)@ + records_list_text(es@),
{
    let mut i: usize = 0;
    assert(records_list_text(es@.take(0)) =~= Seq::<char>::empty());
    assert(w@ =~= old(w)@ + records_list_text(es@.take(0)));
    while i < es.len()
        invariant
            i <= es@.len(),
            w@ == old(w)@ + records_list_text(es@.take(i as int)),
        decreases es@.len() - i,
    {
        write_record(&es[i], w);
        proof {
            lemma_records_list_text_step(es@, i as int);
            assert(w@ =~= old(w)@ + records_list_text(es@.take(i as int + 1)));
        }
        i = i + 1;
    }
    proof {
        assert(es@.take(es@.len() as int) =~= es@);
    }
}

fn write_trait_methods(es: &Vec<Endpoint>, w: &mut String)
    ensures
        final(w)@ == old(w)@ + trait_methods_text(es@),
{
    let mut i: usize = 0;
    assert(trait_methods_text(es@.take(0)) =~= Seq::<char>::empty());
    assert(w@ =~= old(w)@ + trait_methods_text(es@.take(0)));
    while i < es.len()
        invariant
            i <= es@.len(),
            w@ == old(w)@ + trait_methods_text(es@.take(i as int)),
        decreases es@.len() - i,
    {
        let e = &es[i];
        let n = pascal_case(e.id.as_str());
        w.append("async fn ");
        w.append(e.id.as_str());
        w.append("(&self, req: &");
        w.append(n.as_str());
        w.append("Request");
        match &e.principal {
            Some(p) => {
                w.append(", caller: &");
                let pn = pascal_case(p.as_str());
                w.append(pn.as_str());
                w.append("Principal");
            },
            None => {},
        }
        w.append(") -> Result<");
        w.append(n.as_str());
        w.append("Response, Error>;");
        proof {
            lemma_trait_methods_text_step(es@, i as int);
            assert(w@ =~= old(w)@ + trait_methods_text(es@.take(i as int + 1)));
        }
        i = i + 1;
    }
    proof {
        assert(es@.take(es@.len() as int) =~= es@);
    }
}

fn write_handler(e: &Endpoint, w: &mut String)
    ensures
        final(w)@ == old(w)@ + handler_text(*e),
{
    let n = pascal_case(e.id.as_str());
    w.append("async fn ");
    let h = http_endpoint_fn(e);
    w.append(h.as_str());
    w.append("(svc: actix_web::web::Data<dyn Service>, req: actix_web::web::Json<");
    w.append(n.as_str());
    w.append("Request>");
    match &e.principal {
        Some(p) => {
            w.append(", resolver: actix_web::web::Data<dyn HttpPrincipalResolver<");
            let pn = pascal_case(p.as_str());
            w.append(pn.as_str());
            w.append("Principal>>, http_req: actix_web::HttpRequest");
        },
        None => {},
    }
    w.append(") -> Result<actix_web::HttpResponse, Error> {");
    w.append("let result = svc.");
    w.append(e.id.as_str());
    w.append("(&req");
    match &e.principal {
        Some(_) => {
            w.append(", &resolver.resolve(http_req).await?");
        },
        None => {},
    }
    w.append(").await?;");
    w.append("Ok(actix_web::HttpResponse::Ok().json(result))");
    w.append("}");
    proof {
        assert(w@ =~= old(w)@ + handler_text(*e));
    }
}

fn write_handlers(es: &Vec<Endpoint>, w: &mut String)
    ensures
        final(w)@ == old(w)@ + handlers_text(es@),
{
    let mut i: usize = 0;
    assert(handlers_text(es@.take(0)) =~= Seq::<char>::empty());
    assert(w@ =~= old(w)@ + handlers_text(es@.take(0)));
    while i < es.len()
        invariant
            i <= es@.len(),
            w@ == old(w)@ + handlers_text(es@.take(i as int)),
        decreases es@.len() - i,
    {
        write_handler(&es[i], w);
        proof {
            lemma_handlers_text_step(es@, i as int);
            assert(w@ =~= old(w)@ + handlers_text(es@.take(i as int + 1)));
        }
        i = i + 1;
    }
    proof {
        assert(es@.take(es@.len() as int) =~= es@);
    }
}

fn write_resolver_params(ps: &Vec<String>, w: &mut String)
    ensures
        final(w)@ == old(w)@ + resolver_params_text(string_views(ps@)),
{
    let ghost vs = string_views(ps@);
    let mut i: usize = 0;
    assert(resolver_params_text(vs.take(0)) =~= Seq::<char>::empty());
    assert(w@ =~= old(w)@ + resolver_params_text(vs.take(0)));
    while i < ps.len()
        invariant
            i <= ps@.len(),
            vs == string_views(ps@),
            vs.len() == ps@.len(),
            w@ == old(w)@ + resolver_params_text(vs.take(i as int)),
        decreases ps@.len() - i,
    {
        let p = &ps[i];
        w.append(", resolver_");
        w.append(p.as_str());
        w.append(": std::sync::Arc<dyn HttpPrincipalResolver<");
        let pn = pascal_case(p.as_str());
        w.append(pn.as_str());
        w.append("Principal>>");
        proof {
            lemma_resolver_params_text_step(vs, i as int);
            assert(vs[i as int] == p@);
            assert(w@ =~= old(w)@ + resolver_params_text(vs.take(i as int + 1)));
        }
        i = i + 1;
    }
    proof {
        assert(vs.take(vs.len() as int) =~= vs);
    }
}

fn write_resolver_datas(ps: &Vec<String>, w: &mut String)
    ensures
        final(w)@ == old(w)@ + resolver_datas_text(string_views(ps@)),
{
    let ghost vs = string_views(ps@);
    let mut i: usize = 0;
    assert(resolver_datas_text(vs.take(0)) =~= Seq::<char>::empty());
    assert(w@ =~= old(w)@ + resolver_datas_text(vs.take(0)));
    while i < ps.len()
        invariant
            i <= ps@.len(),
            vs == string_views(ps@),
            vs.len() == ps@.len(),
            w@ == old(w)@ + resolver_datas_text(vs.take(i as int)),
        decreases ps@.len() - i,
    {
        let p = &ps[i];
        w.append(".app_data(actix_web::web::Data::from(resolver_");
        w.append(p.as_str());
        w.append("))");
        proof {
            lemma_resolver_datas_text_step(vs, i as int);
            assert(vs[i as int] == p@);
            assert(w@ =~= old(w)@ + resolver_datas_text(vs.take(i as int + 1)));
        }
        i = i + 1;
    }
    proof {
        assert(vs.take(vs.len() as int) =~= vs);
    }
}

fn write_routes(es: &Vec<Endpoint>, w: &mut String)
    ensures
        final(w)@ == old(w)@ + routes_text(es@),
{
    let mut i: usize = 0;
    assert(routes_text(es@.take(0)) =~= Seq::<char>::empty());
    assert(w@ =~= old(w)@ + routes_text(es@.take(0)));
    while i < es.len()
        invariant
            i <= es@.len(),
            w@ == old(w)@ + routes_text(es@.take(i as int)),
        decreases es@.len() - i,
    {
        let e = &es[i];
        w.append(".service(actix_web::web::resource(\"");
        w.append(e.id.as_str());
        w.append("\").route(actix_web::web::post().to(");
        let h = http_endpoint_fn(e);
        w.append(h.as_str());
        w.append(")))");
        proof {
            lemma_routes_text_step(es@, i as int);
            assert(w@ =~= old(w)@ + routes_text(es@.take(i as int + 1)));
        }
        i = i + 1;
    }
    proof {
        assert(es@.take(es@.len() as int) =~= es@);
    }
}

fn write_scope(s: &Service, w: &mut String)
    ensures
        final(w)@ == old(w)@ + scope_text(*s),
{
    let ps = distinct_principals(s);
    w.append("pub fn create_scope(svc: std::sync::Arc<dyn Service>");
    write_resolver_params(&ps, w);
    w.append(") -> actix_web::Scope {");
    w.append("actix_web::web::scope(\"");
    w.append(s.id.as_str());
    w.append("\")");
    w.append(".app_data(actix_web::web::Data::from(svc))");
    write_resolver_datas(&ps, w);
    write_routes(&s.endpoints, w);
    w.append("}");
    proof {
        assert(w@ =~= old(w)@ + scope_text(*s));
    }
}

impl crate::codegen::CodeGenerator for RustServer {
    open spec fn spec_name(&self) -> Seq<char> {
        "rust_server"@
    }

    open spec fn spec_source_dir(&self) -> Seq<char> {
        "src"@
    }

    open spec fn spec_source_file(&self) -> Seq<char> {
        "lib.rs"@
    }

    open spec fn spec_project_files(&self, config: Config) -> Seq<(Seq<char>, Seq<char>)> {
        seq![("Cargo.toml"@, manifest_text(config))]
    }

    open spec fn spec_post_commands(&self) -> Seq<(Seq<char>, Seq<Seq<char>>)> {
        seq![("cargo"@, seq!["fmt"@]), ("cargo"@, seq!["check"@])]
    }

    open spec fn spec_config_output(&self, config: Config) -> Seq<char> {
        config_text(config)
    }

    open spec fn spec_service_output(&self, service: Service) -> Seq<char> {
        service_text(service)
    }

    fn name(&self) -> (r: String) {
        String::from_str("rust_server")
    }

    fn source_dir(&self) -> (r: String) {
        String::from_str("src")
    }

    fn source_file(&self) -> (r: String) {
        String::from_str("lib.rs")
    }

    fn project_files(&self, config: &Config) -> (r: Vec<(String, String)>) {
        let mut m = String::from_str("[package]\nname = \"");
        m.append(config.project_name.as_str());
        m.append(
            "\"\nversion = \"0.1.0\"\nedition = \"2018\"\n\n[dependencies]\nactix-web = \"3\"\nasync-trait = \"0.1\"\nderive_more = \"0.99\"\nserde = { version = \"1\", features = [\"derive\"] }\n",
        );
        proof {
            assert(m@ =~= manifest_text(*config));
        }
        let mut r: Vec<(String, String)> = Vec::new();
        r.push((String::from_str("Cargo.toml"), m));
        proof {
            assert(crate::codegen::file_views(r@) =~= self.spec_project_files(*config));
        }
        r
    }

    fn post_commands(&self) -> (r: Vec<(String, Vec<String>)>) {
        let mut fmt_args: Vec<String> = Vec::new();
        fmt_args.push(String::from_str("fmt"));
        let mut check_args: Vec<String> = Vec::new();
        check_args.push(String::from_str("check"));
        let mut r: Vec<(String, Vec<String>)> = Vec::new();
        r.push((String::from_str("cargo"), fmt_args));
        r.push((String::from_str("cargo"), check_args));
        proof {
            assert(crate::codegen::command_views(r@) =~~= self.spec_post_commands());
        }
        r
    }

    #[verifier::rlimit(50)]
    fn config(&self, config: &Config, w: &mut String) -> (r: Result<(), crate::Error>) {
        w.append("pub use actix_web;");
        w.append("pub use async_trait;");
        w.append("pub mod core {");
        w.append("#[derive(Debug, derive_more::Display)] pub enum Error {");
        write_error_variants(&config.errors, w);
        w.append("#[display(fmt = \"internal_error\")] Internal(Box<dyn std::error::Error>),");
        w.append("}");
        w.append("impl<T: std::error::Error + 'static> From<T> for Error {");
        w.append("fn from(err: T) -> Self { Error::Internal(Box::new(err)) }");
        w.append("}");
        w.append("impl actix_web::error::ResponseError for Error {");
        w.append("fn error_response(&self) -> actix_web::HttpResponse {");
        w.append(
            "actix_web::dev::HttpResponseBuilder::new(self.status_code()).body(self.to_string())",
        );
        w.append("}");
        w.append("fn status_code(&self) -> actix_web::http::StatusCode { match *self {");
        write_status_arms(&config.errors, w);
        w.append("_ => actix_web::http::StatusCode::INTERNAL_SERVER_ERROR,");
        w.append("} }");
        w.append("}");
        w.append("#[async_trait::async_trait(?Send)] pub trait HttpPrincipalResolver<P> {");
        w.append("async fn resolve(&self, req: actix_web::HttpRequest) -> Result<P, Error>;");
        w.append("}");
        write_principals(&config.principals, w);
        w.append("}");
        proof {
            assert(w@ =~= old(w)@ + config_text(*config));
        }
        Ok(())
    }

    #[verifier::rlimit(50)]
    fn service(&self, service: &Service, w: &mut String) -> (r: Result<(), crate::Error>) {
        w.append("pub mod ");
        w.append(service.id.as_str());
        w.append(" {");
        w.append("use crate::core::*;");
        write_records(&service.endpoints, w);
        w.append("#[async_trait::async_trait] pub trait Service {");
        write_trait_methods(&service.endpoints, w);
        w.append("}");
        write_handlers(&service.endpoints, w);
        write_scope(service, w);
        w.append("}");
        proof {
            assert(w@ =~= old(w)@ + service_text(*service));
        }
        Ok(())
    }
}

} // verus!
