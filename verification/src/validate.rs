//! Schema validation: the referential and uniqueness invariants that must
//! hold before rendering starts.
//!
//! Rendering derives type names from ids; validation therefore also rejects
//! two distinct ids whose derived type names coincide in one scope, so that
//! a collision is reported instead of silently emitting clashing types.

use vstd::prelude::*;
use crate::naming::pascal_case;
use crate::naming::pascal_of;
use crate::service::Config;
use crate::service::Endpoint;
use crate::service::EndpointError;
use crate::service::Fields;
use crate::service::Principal;
use crate::service::Service;
use crate::service::endpoint_ids;
use crate::service::error_ids;
use crate::service::field_names;
use crate::service::principal_ids;
use crate::service::service_ids;
use crate::text::contains_string;
use crate::text::string_views;

verus! {

/// A referential or uniqueness defect of a schema, named after the offending
/// entities. Raised before rendering; no output is produced for a schema
/// that carries one.
#[derive(Debug)]
pub enum ValidationError {
    /// Two principals declare the same id.
    DuplicatePrincipalId { id: String },
    /// Two distinct principal ids derive the same type name.
    PrincipalNameCollision { first_id: String, second_id: String },
    /// Two error kinds declare the same id.
    DuplicateErrorId { id: String },
    /// Two distinct error ids derive the same type name.
    ErrorNameCollision { first_id: String, second_id: String },
    /// An error id derives the variant name that the emitted taxonomy
    /// reserves for its implicit internal variant.
    ReservedErrorId { id: String },
    /// Two services declare the same id.
    DuplicateServiceId { id: String },
    /// A service declares the id that the emitted source reserves for the
    /// shared global module.
    ReservedServiceId { id: String },
    /// Two endpoints of one service declare the same id.
    DuplicateEndpointId { service_id: String, endpoint_id: String },
    /// Two distinct endpoint ids of one service derive the same type name.
    EndpointNameCollision { service_id: String, first_id: String, second_id: String },
    /// A field mapping of an endpoint declares the same name twice.
    DuplicateFieldName { endpoint_id: String, field: String },
    /// An endpoint is gated by a principal id that the configuration does
    /// not declare.
    UnknownPrincipal { endpoint_id: String, principal_id: String },
}

/// No two entries are equal.
pub open spec fn distinct_seqs(ids: Seq<Seq<char>>) -> bool {
    forall|i: int, j: int| 0 <= i < j < ids.len() ==> ids[i] != ids[j]
}

/// No two entries derive the same type name.
pub open spec fn distinct_derived(ids: Seq<Seq<char>>) -> bool {
    forall|i: int, j: int| 0 <= i < j < ids.len() ==> pascal_of(ids[i]) != pascal_of(ids[j])
}

/// The principal reference of this endpoint, when present, names a
/// principal that the configuration declares.
pub open spec fn principal_resolves(c: Config, e: Endpoint) -> bool {
    match e.principal {
        Some(p) => principal_ids(c.principals@).contains(p@),
        None => true,
    }
}

/// The field mappings of this endpoint carry no duplicate name.
pub open spec fn fields_ok(e: Endpoint) -> bool {
    &&& match e.req {
        Some(fs) => distinct_seqs(field_names(fs@)),
        None => true,
    }
    &&& match e.res {
        Some(fs) => distinct_seqs(field_names(fs@)),
        None => true,
    }
}

/// Every invariant local to one endpoint, against the given configuration.
pub open spec fn valid_endpoint(c: Config, e: Endpoint) -> bool {
    fields_ok(e) && principal_resolves(c, e)
}

/// Every invariant of one service: no reserved id, unique endpoint ids,
/// collision-free derived endpoint type names, and valid endpoints.
pub open spec fn valid_service(c: Config, s: Service) -> bool {
    &&& s.id@ != "core"@
    &&& distinct_seqs(endpoint_ids(s.endpoints@))
    &&& distinct_derived(endpoint_ids(s.endpoints@))
    &&& forall|i: int| 0 <= i < s.endpoints@.len() ==> valid_endpoint(c, #[trigger] s.endpoints@[i])
}

/// Every invariant of the configuration itself: unique, collision-free
/// principal and error ids, and no error id deriving the reserved
/// internal variant name.
pub open spec fn valid_config(c: Config) -> bool {
    &&& distinct_seqs(principal_ids(c.principals@))
    &&& distinct_derived(principal_ids(c.principals@))
    &&& distinct_seqs(error_ids(c.errors@))
    &&& distinct_derived(error_ids(c.errors@))
    &&& forall|i: int| 0 <= i < c.errors@.len() ==> pascal_of(#[trigger] c.errors@[i].id@) != "Internal"@
}

/// Every invariant of a whole schema: a valid configuration, unique service
/// ids, and valid services.
pub open spec fn valid_schema(c: Config, ss: Seq<Service>) -> bool {
    &&& valid_config(c)
    &&& distinct_seqs(service_ids(ss))
    &&& forall|i: int| 0 <= i < ss.len() ==> valid_service(c, #[trigger] ss[i])
}

/// A duplicate entry with the characters of `id` exists in `ids`.
pub open spec fn has_duplicate(ids: Seq<Seq<char>>, id: Seq<char>) -> bool {
    exists|i: int, j: int| 0 <= i < j < ids.len() && ids[i] == ids[j] && ids[i] == id
}

/// Two distinct entries, with the characters of `first` and `second`, derive
/// the same type name.
pub open spec fn has_collision(ids: Seq<Seq<char>>, first: Seq<char>, second: Seq<char>) -> bool {
    exists|i: int, j: int|
        0 <= i < j < ids.len() && ids[i] == first && ids[j] == second && ids[i] != ids[j]
            && pascal_of(ids[i]) == pascal_of(ids[j])
}

/// A duplicate name with the characters of `field` exists in one of the
/// field mappings of `e`.
pub open spec fn endpoint_has_duplicate_field(e: Endpoint, field: Seq<char>) -> bool {
    ||| match e.req {
        Some(fs) => has_duplicate(field_names(fs@), field),
        None => false,
    }
    ||| match e.res {
        Some(fs) => has_duplicate(field_names(fs@), field),
        None => false,
    }
}

/// The violation that a [`ValidationError`] names truly holds of the schema:
/// every error the validator returns is witnessed by the offending entities.
pub open spec fn spec_violation(v: ValidationError, c: Config, ss: Seq<Service>) -> bool {
    match v {
        ValidationError::DuplicatePrincipalId { id } => has_duplicate(
            principal_ids(c.principals@),
            id@,
        ),
        ValidationError::PrincipalNameCollision { first_id, second_id } => has_collision(
            principal_ids(c.principals@),
            first_id@,
            second_id@,
        ),
        ValidationError::DuplicateErrorId { id } => has_duplicate(error_ids(c.errors@), id@),
        ValidationError::ErrorNameCollision { first_id, second_id } => has_collision(
            error_ids(c.errors@),
            first_id@,
            second_id@,
        ),
        ValidationError::ReservedErrorId { id } => exists|i: int|
            0 <= i < c.errors@.len() && (#[trigger] c.errors@[i]).id@ == id@ && pascal_of(id@)
                == "Internal"@,
        ValidationError::DuplicateServiceId { id } => has_duplicate(service_ids(ss), id@),
        ValidationError::ReservedServiceId { id } => id@ == "core"@ && exists|i: int|
            0 <= i < ss.len() && (#[trigger] ss[i]).id@ == id@,
        ValidationError::DuplicateEndpointId { service_id, endpoint_id } => exists|k: int|
            0 <= k < ss.len() && (#[trigger] ss[k]).id@ == service_id@ && has_duplicate(
                endpoint_ids(ss[k].endpoints@),
                endpoint_id@,
            ),
        ValidationError::EndpointNameCollision { service_id, first_id, second_id } => exists|
            k: int,
        |
            0 <= k < ss.len() && (#[trigger] ss[k]).id@ == service_id@ && has_collision(
                endpoint_ids(ss[k].endpoints@),
                first_id@,
                second_id@,
            ),
        ValidationError::DuplicateFieldName { endpoint_id, field } => exists|k: int, i: int|
            0 <= k < ss.len() && 0 <= i < ss[k].endpoints@.len() && (#[trigger] ss[k].endpoints@[i]).id@
                == endpoint_id@ && endpoint_has_duplicate_field(ss[k].endpoints@[i], field@),
        ValidationError::UnknownPrincipal { endpoint_id, principal_id } => (!principal_ids(
            c.principals@,
        ).contains(principal_id@)) && exists|k: int, i: int|
            0 <= k < ss.len() && 0 <= i < ss[k].endpoints@.len() && (#[trigger] ss[k].endpoints@[i]).id@
                == endpoint_id@ && ss[k].endpoints@[i].principal == Some(principal_id),
    }
}

fn principal_ids_vec(ps: &Vec<Principal>) -> (r: Vec<String>)
    ensures
        string_views(r@) == principal_ids(ps@),
{
    let mut r: Vec<String> = Vec::new();
    let mut i: usize = 0;
    while i < ps.len()
        invariant
            i <= ps@.len(),
            r@.len() == i,
            forall|k: int| 0 <= k < i ==> (#[trigger] r@[k])@ == ps@[k].id@,
        decreases ps@.len() - i,
    {
        r.push(ps[i].id.clone());
        i = i + 1;
    }
    proof {
        assert(string_views(r@) =~= principal_ids(ps@));
    }
    r
}

fn error_ids_vec(es: &Vec<EndpointError>) -> (r: Vec<String>)
    ensures
        string_views(r@) == error_ids(es@),
{
    let mut r: Vec<String> = Vec::new();
    let mut i: usize = 0;
    while i < es.len()
        invariant
            i <= es@.len(),
            r@.len() == i,
            forall|k: int| 0 <= k < i ==> (#[trigger] r@[k])@ == es@[k].id@,
        decreases es@.len() - i,
    {
        r.push(es[i].id.clone());
        i = i + 1;
    }
    proof {
        assert(string_views(r@) =~= error_ids(es@));
    }
    r
}

fn service_ids_vec(ss: &Vec<Service>) -> (r: Vec<String>)
    ensures
        string_views(r@) == service_ids(ss@),
{
    let mut r: Vec<String> = Vec::new();
    let mut i: usize = 0;
    while i < ss.len()
        invariant
            i <= ss@.len(),
            r@.len() == i,
            forall|k: int| 0 <= k < i ==> (#[trigger] r@[k])@ == ss@[k].id@,
        decreases ss@.len() - i,
    {
        r.push(ss[i].id.clone());
        i = i + 1;
    }
    proof {
        assert(string_views(r@) =~= service_ids(ss@));
    }
    r
}

fn endpoint_ids_vec(es: &Vec<Endpoint>) -> (r: Vec<String>)
    ensures
        string_views(r@) == endpoint_ids(es@),
{
    let mut r: Vec<String> = Vec::new();
    let mut i: usize = 0;
    while i < es.len()
        invariant
            i <= es@.len(),
            r@.len() == i,
            forall|k: int| 0 <= k < i ==> (#[trigger] r@[k])@ == es@[k].id@,
        decreases es@.len() - i,
    {
        r.push(es[i].id.clone());
        i = i + 1;
    }
    proof {
        assert(string_views(r@) =~= endpoint_ids(es@));
    }
    r
}

fn field_names_vec(fs: &Fields) -> (r: Vec<String>)
    ensures
        string_views(r@) == field_names(fs@),
{
    let mut r: Vec<String> = Vec::new();
    let mut i: usize = 0;
    while i < fs.len()
        invariant
            i <= fs@.len(),
            r@.len() == i,
            forall|k: int| 0 <= k < i ==> (#[trigger] r@[k])@ == fs@[k].0@,
        decreases fs@.len() - i,
    {
        r.push(fs[i].0.clone());
        i = i + 1;
    }
    proof {
        assert(string_views(r@) =~= field_names(fs@));
    }
    r
}

/// The first pair of equal entries, scanning pairs in order, or nothing when
/// all entries are distinct.
fn find_duplicate(ids: &Vec<String>) -> (r: Option<(usize, usize)>)
    ensures
        match r {
            Some(p) => p.0 < p.1 < ids@.len() && string_views(ids@)[p.0 as int] == string_views(
                ids@,
            )[p.1 as int],
            None => distinct_seqs(string_views(ids@)),
        },
{
    let ghost vs = string_views(ids@);
    let mut i: usize = 0;
    while i < ids.len()
        invariant
            i <= ids@.len(),
            vs == string_views(ids@),
            vs.len() == ids@.len(),
            forall|a: int, b: int| 0 <= a < b < vs.len() && a < i ==> vs[a] != vs[b],
        decreases ids@.len() - i,
    {
        let mut j: usize = i + 1;
        while j < ids.len()
            invariant
                i < ids@.len(),
                i < j <= ids@.len(),
                vs == string_views(ids@),
                vs.len() == ids@.len(),
                forall|b: int| i < b < j ==> vs[i as int] != vs[b],
            decreases ids@.len() - j,
        {
            if ids[i] == ids[j] {
                assert(vs[i as int] == vs[j as int]);
                return Some((i, j));
            }
            j = j + 1;
        }
        i = i + 1;
    }
    None
}

/// The first pair of entries deriving the same type name, scanning pairs in
/// order, or nothing when all derived names are distinct.
fn find_collision(ids: &Vec<String>) -> (r: Option<(usize, usize)>)
    ensures
        match r {
            Some(p) => p.0 < p.1 < ids@.len() && pascal_of(string_views(ids@)[p.0 as int])
                == pascal_of(string_views(ids@)[p.1 as int]),
            None => distinct_derived(string_views(ids@)),
        },
{
    let ghost vs = string_views(ids@);
    let mut pascals: Vec<String> = Vec::new();
    let mut i: usize = 0;
    while i < ids.len()
        invariant
            i <= ids@.len(),
            vs == string_views(ids@),
            vs.len() == ids@.len(),
            pascals@.len() == i,
            forall|k: int| 0 <= k < i ==> (#[trigger] pascals@[k])@ == pascal_of(vs[k]),
        decreases ids@.len() - i,
    {
        let p = pascal_case(ids[i].as_str());
        pascals.push(p);
        i = i + 1;
    }
    let mut a: usize = 0;
    while a < pascals.len()
        invariant
            a <= pascals@.len(),
            vs == string_views(ids@),
            vs.len() == ids@.len(),
            pascals@.len() == ids@.len(),
            forall|k: int| 0 <= k < pascals@.len() ==> (#[trigger] pascals@[k])@ == pascal_of(vs[k]),
            forall|x: int, y: int|
                0 <= x < y < vs.len() && x < a ==> pascal_of(vs[x]) != pascal_of(vs[y]),
        decreases pascals@.len() - a,
    {
        let mut b: usize = a + 1;
        while b < pascals.len()
            invariant
                a < pascals@.len(),
                a < b <= pascals@.len(),
                vs == string_views(ids@),
                vs.len() == ids@.len(),
                pascals@.len() == ids@.len(),
                forall|k: int|
                    0 <= k < pascals@.len() ==> (#[trigger] pascals@[k])@ == pascal_of(vs[k]),
                forall|y: int| a < y < b ==> pascal_of(vs[a as int]) != pascal_of(vs[y]),
            decreases pascals@.len() - b,
        {
            if pascals[a] == pascals[b] {
                assert(pascal_of(vs[a as int]) == pascal_of(vs[b as int]));
                return Some((a, b));
            }
            b = b + 1;
        }
        a = a + 1;
    }
    None
}

/// Validates a whole schema before any rendering: succeeds exactly when
/// every invariant of [`valid_schema`] holds, and otherwise names a defect
/// that truly holds of the schema, after the offending entities.
pub fn validate(config: &Config, services: &Vec<Service>) -> (r: Result<(), ValidationError>)
    ensures
        r is Ok <==> valid_schema(*config, services@),
        (r matches Err(v) ==> spec_violation(v, *config, services@)),
{
    let pids = principal_ids_vec(&config.principals);
    match find_duplicate(&pids) {
        Some((i, j)) => {
            proof {
                assert(principal_ids(config.principals@)[i as int] == principal_ids(
                    config.principals@,
                )[j as int]);
            }
            return Err(ValidationError::DuplicatePrincipalId { id: pids[i].clone() });
        },
        None => {},
    }
    match find_collision(&pids) {
        Some((i, j)) => {
            proof {
                assert(pascal_of(principal_ids(config.principals@)[i as int]) == pascal_of(
                    principal_ids(config.principals@)[j as int],
                ));
            }
            return Err(
                ValidationError::PrincipalNameCollision {
                    first_id: pids[i].clone(),
                    second_id: pids[j].clone(),
                },
            );
        },
        None => {},
    }
    let eids = error_ids_vec(&config.errors);
    match find_duplicate(&eids) {
        Some((i, j)) => {
            proof {
                assert(error_ids(config.errors@)[i as int] == error_ids(config.errors@)[j as int]);
            }
            return Err(ValidationError::DuplicateErrorId { id: eids[i].clone() });
        },
        None => {},
    }
    match find_collision(&eids) {
        Some((i, j)) => {
            proof {
                assert(pascal_of(error_ids(config.errors@)[i as int]) == pascal_of(
                    error_ids(config.errors@)[j as int],
                ));
            }
            return Err(
                ValidationError::ErrorNameCollision {
                    first_id: eids[i].clone(),
                    second_id: eids[j].clone(),
                },
            );
        },
        None => {},
    }
    let internal_name = String::from_str("Internal");
    let mut ei: usize = 0;
    while ei < config.errors.len()
        invariant
            ei <= config.errors@.len(),
            internal_name@ == "Internal"@,
            forall|n: int|
                0 <= n < ei ==> pascal_of(#[trigger] config.errors@[n].id@) != "Internal"@,
        decreases config.errors@.len() - ei,
    {
        let p = pascal_case(config.errors[ei].id.as_str());
        if p == internal_name {
            proof {
                assert(config.errors@[ei as int].id@ == config.errors@[ei as int].id@);
            }
            return Err(ValidationError::ReservedErrorId { id: config.errors[ei].id.clone() });
        }
        ei = ei + 1;
    }
    let sids = service_ids_vec(services);
    match find_duplicate(&sids) {
        Some((i, j)) => {
            proof {
                assert(service_ids(services@)[i as int] == service_ids(services@)[j as int]);
            }
            return Err(ValidationError::DuplicateServiceId { id: sids[i].clone() });
        },
        None => {},
    }
    let core_name = String::from_str("core");
    let mut k: usize = 0;
    while k < services.len()
        invariant
            k <= services@.len(),
            core_name@ == "core"@,
            string_views(pids@) == principal_ids(config.principals@),
            forall|m: int| 0 <= m < k ==> valid_service(*config, #[trigger] services@[m]),
        decreases services@.len() - k,
    {
        let s = &services[k];
        if s.id == core_name {
            proof {
                assert(service_ids(services@)[k as int] == s.id@);
            }
            return Err(ValidationError::ReservedServiceId { id: s.id.clone() });
        }
        let endpoint_id_vec = endpoint_ids_vec(&s.endpoints);
        match find_duplicate(&endpoint_id_vec) {
            Some((i, j)) => {
                proof {
                    assert(endpoint_ids(s.endpoints@)[i as int] == endpoint_ids(
                        s.endpoints@,
                    )[j as int]);
                    assert(!valid_service(*config, services@[k as int]));
                }
                return Err(
                    ValidationError::DuplicateEndpointId {
                        service_id: s.id.clone(),
                        endpoint_id: endpoint_id_vec[i].clone(),
                    },
                );
            },
            None => {},
        }
        match find_collision(&endpoint_id_vec) {
            Some((i, j)) => {
                proof {
                    assert(pascal_of(endpoint_ids(s.endpoints@)[i as int]) == pascal_of(
                        endpoint_ids(s.endpoints@)[j as int],
                    ));
                    assert(!valid_service(*config, services@[k as int]));
                }
                return Err(
                    ValidationError::EndpointNameCollision {
                        service_id: s.id.clone(),
                        first_id: endpoint_id_vec[i].clone(),
                        second_id: endpoint_id_vec[j].clone(),
                    },
                );
            },
            None => {},
        }
        let mut i: usize = 0;
        while i < s.endpoints.len()
            invariant
                i <= s.endpoints@.len(),
                k < services@.len(),
                *s == services@[k as int],
                string_views(pids@) == principal_ids(config.principals@),
                forall|n: int|
                    0 <= n < i ==> valid_endpoint(*config, #[trigger] s.endpoints@[n]),
            decreases s.endpoints@.len() - i,
        {
            let e = &s.endpoints[i];
            match &e.req {
                Some(fs) => {
                    let names = field_names_vec(fs);
                    match find_duplicate(&names) {
                        Some((a, b)) => {
                            proof {
                                assert(field_names(fs@)[a as int] == field_names(fs@)[b as int]);
                                assert(endpoint_has_duplicate_field(
                                    services@[k as int].endpoints@[i as int],
                                    field_names(fs@)[a as int],
                                ));
                                assert(!valid_endpoint(*config, services@[k as int].endpoints@[i as int]));
                                assert(!valid_service(*config, services@[k as int]));
                            }
                            return Err(
                                ValidationError::DuplicateFieldName {
                                    endpoint_id: e.id.clone(),
                                    field: names[a].clone(),
                                },
                            );
                        },
                        None => {},
                    }
                },
                None => {},
            }
            match &e.res {
                Some(fs) => {
                    let names = field_names_vec(fs);
                    match find_duplicate(&names) {
                        Some((a, b)) => {
                            proof {
                                assert(field_names(fs@)[a as int] == field_names(fs@)[b as int]);
                                assert(endpoint_has_duplicate_field(
                                    services@[k as int].endpoints@[i as int],
                                    field_names(fs@)[a as int],
                                ));
                                assert(!valid_endpoint(*config, services@[k as int].endpoints@[i as int]));
                                assert(!valid_service(*config, services@[k as int]));
                            }
                            return Err(
                                ValidationError::DuplicateFieldName {
                                    endpoint_id: e.id.clone(),
                                    field: names[a].clone(),
                                },
                            );
                        },
                        None => {},
                    }
                },
                None => {},
            }
            match &e.principal {
                Some(p) => {
                    if !contains_string(&pids, p) {
                        proof {
                            assert(!principal_resolves(*config, services@[k as int].endpoints@[i as int]));
                            assert(!valid_service(*config, services@[k as int]));
                        }
                        return Err(
                            ValidationError::UnknownPrincipal {
                                endpoint_id: e.id.clone(),
                                principal_id: p.clone(),
                            },
                        );
                    }
                },
                None => {},
            }
            proof {
                assert(valid_endpoint(*config, s.endpoints@[i as int]));
            }
            i = i + 1;
        }
        proof {
            assert(valid_service(*config, services@[k as int]));
        }
        k = k + 1;
    }
    proof {
        assert(valid_schema(*config, services@));
    }
    Ok(())
}

} // verus!
