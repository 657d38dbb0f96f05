use idiomatic::validate::validate;
use idiomatic::Config;
use idiomatic::Endpoint;
use idiomatic::EndpointError;
use idiomatic::EndpointMethod;
use idiomatic::Principal;
use idiomatic::Service;
use idiomatic::Type;
use idiomatic::ValidationError;

fn empty_config() -> Config {
    Config {
        project_name: "demo".to_string(),
        principals: vec![],
        errors: vec![],
    }
}

fn principal(id: &str) -> Principal {
    Principal {
        id: id.to_string(),
        attributes: vec![],
    }
}

fn endpoint(id: &str, principal: Option<&str>) -> Endpoint {
    Endpoint {
        id: id.to_string(),
        req: None,
        res: None,
        principal: principal.map(|p| p.to_string()),
        method: EndpointMethod::Post,
    }
}

fn service(id: &str, endpoints: Vec<Endpoint>) -> Service {
    Service {
        id: id.to_string(),
        endpoints,
    }
}

#[test]
fn empty_schema_is_valid() {
    assert!(validate(&empty_config(), &vec![]).is_ok());
}

#[test]
fn missing_principal_reference_is_rejected() {
    let config = empty_config();
    let services = vec![service("auth", vec![endpoint("whoami", Some("admin"))])];
    match validate(&config, &services) {
        Err(ValidationError::UnknownPrincipal {
            endpoint_id,
            principal_id,
        }) => {
            assert_eq!(endpoint_id, "whoami");
            assert_eq!(principal_id, "admin");
        }
        other => panic!("expected an unknown-principal defect, got {:?}", other),
    }
}

#[test]
fn declared_principal_reference_is_accepted() {
    let mut config = empty_config();
    config.principals.push(principal("admin"));
    let services = vec![service("auth", vec![endpoint("whoami", Some("admin"))])];
    assert!(validate(&config, &services).is_ok());
}

#[test]
fn duplicate_principal_id_is_rejected() {
    let mut config = empty_config();
    config.principals.push(principal("user"));
    config.principals.push(principal("user"));
    match validate(&config, &vec![]) {
        Err(ValidationError::DuplicatePrincipalId { id }) => assert_eq!(id, "user"),
        other => panic!("expected a duplicate-principal defect, got {:?}", other),
    }
}

#[test]
fn colliding_principal_names_are_rejected() {
    let mut config = empty_config();
    config.principals.push(principal("site_admin"));
    config.principals.push(principal("siteAdmin"));
    match validate(&config, &vec![]) {
        Err(ValidationError::PrincipalNameCollision {
            first_id,
            second_id,
        }) => {
            assert_eq!(first_id, "site_admin");
            assert_eq!(second_id, "siteAdmin");
        }
        other => panic!("expected a name-collision defect, got {:?}", other),
    }
}

#[test]
fn duplicate_error_id_is_rejected() {
    let mut config = empty_config();
    config.errors.push(EndpointError {
        id: "nope".to_string(),
        code: None,
    });
    config.errors.push(EndpointError {
        id: "nope".to_string(),
        code: Some(400),
    });
    match validate(&config, &vec![]) {
        Err(ValidationError::DuplicateErrorId { id }) => assert_eq!(id, "nope"),
        other => panic!("expected a duplicate-error defect, got {:?}", other),
    }
}

#[test]
fn colliding_error_names_are_rejected() {
    let mut config = empty_config();
    config.errors.push(EndpointError {
        id: "not_found".to_string(),
        code: Some(404),
    });
    config.errors.push(EndpointError {
        id: "notFound".to_string(),
        code: None,
    });
    match validate(&config, &vec![]) {
        Err(ValidationError::ErrorNameCollision { .. }) => {}
        other => panic!("expected a name-collision defect, got {:?}", other),
    }
}

#[test]
fn error_id_deriving_internal_is_rejected() {
    let mut config = empty_config();
    config.errors.push(EndpointError {
        id: "internal".to_string(),
        code: None,
    });
    match validate(&config, &vec![]) {
        Err(ValidationError::ReservedErrorId { id }) => assert_eq!(id, "internal"),
        other => panic!("expected a reserved-error defect, got {:?}", other),
    }
}

#[test]
fn duplicate_service_id_is_rejected() {
    let config = empty_config();
    let services = vec![service("auth", vec![]), service("auth", vec![])];
    match validate(&config, &services) {
        Err(ValidationError::DuplicateServiceId { id }) => assert_eq!(id, "auth"),
        other => panic!("expected a duplicate-service defect, got {:?}", other),
    }
}

#[test]
fn service_id_core_is_rejected() {
    let config = empty_config();
    let services = vec![service("core", vec![])];
    match validate(&config, &services) {
        Err(ValidationError::ReservedServiceId { id }) => assert_eq!(id, "core"),
        other => panic!("expected a reserved-service defect, got {:?}", other),
    }
}

#[test]
fn duplicate_endpoint_id_is_rejected() {
    let config = empty_config();
    let services = vec![service(
        "auth",
        vec![endpoint("login", None), endpoint("login", None)],
    )];
    match validate(&config, &services) {
        Err(ValidationError::DuplicateEndpointId {
            service_id,
            endpoint_id,
        }) => {
            assert_eq!(service_id, "auth");
            assert_eq!(endpoint_id, "login");
        }
        other => panic!("expected a duplicate-endpoint defect, got {:?}", other),
    }
}

#[test]
fn colliding_endpoint_names_are_rejected() {
    let config = empty_config();
    let services = vec![service(
        "auth",
        vec![endpoint("log_in", None), endpoint("logIn", None)],
    )];
    match validate(&config, &services) {
        Err(ValidationError::EndpointNameCollision {
            service_id,
            first_id,
            second_id,
        }) => {
            assert_eq!(service_id, "auth");
            assert_eq!(first_id, "log_in");
            assert_eq!(second_id, "logIn");
        }
        other => panic!("expected a name-collision defect, got {:?}", other),
    }
}

#[test]
fn duplicate_field_name_is_rejected() {
    let config = empty_config();
    let mut e = endpoint("login", None);
    e.req = Some(vec![
        ("email".to_string(), Type::String),
        ("email".to_string(), Type::String),
    ]);
    let services = vec![service("auth", vec![e])];
    match validate(&config, &services) {
        Err(ValidationError::DuplicateFieldName { endpoint_id, field }) => {
            assert_eq!(endpoint_id, "login");
            assert_eq!(field, "email");
        }
        other => panic!("expected a duplicate-field defect, got {:?}", other),
    }
}
