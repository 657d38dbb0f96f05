use idiomatic::codegen_rust::server::error_status;
use idiomatic::codegen_rust::server::http_endpoint_fn;
use idiomatic::codegen_rust::server::rust_type;
use idiomatic::codegen_rust::server::RustServer;
use idiomatic::pipeline::generate;
use idiomatic::pipeline::sort_services;
use idiomatic::CodeGenerator;
use idiomatic::Config;
use idiomatic::Endpoint;
use idiomatic::EndpointError;
use idiomatic::EndpointMethod;
use idiomatic::Error;
use idiomatic::Principal;
use idiomatic::Service;
use idiomatic::Type;
use idiomatic::ValidationError;

fn demo_config() -> Config {
    Config {
        project_name: "demo".to_string(),
        principals: vec![Principal {
            id: "user".to_string(),
            attributes: vec![("id".to_string(), Type::String)],
        }],
        errors: vec![EndpointError {
            id: "invalid_credentials".to_string(),
            code: Some(401),
        }],
    }
}

fn auth_service() -> Service {
    Service {
        id: "auth".to_string(),
        endpoints: vec![
            Endpoint {
                id: "login".to_string(),
                req: Some(vec![
                    ("email".to_string(), Type::String),
                    ("password".to_string(), Type::String),
                ]),
                res: Some(vec![("token".to_string(), Type::String)]),
                principal: None,
                method: EndpointMethod::Post,
            },
            Endpoint {
                id: "whoami".to_string(),
                req: Some(vec![]),
                res: Some(vec![("principal_id".to_string(), Type::String)]),
                principal: Some("user".to_string()),
                method: EndpointMethod::Post,
            },
        ],
    }
}

#[test]
fn end_to_end_demo_schema() {
    let config = demo_config();
    let arts = generate(&RustServer, &config, vec![auth_service()]).unwrap();
    assert_eq!(arts.len(), 2);
    assert_eq!(arts[0].0, "Cargo.toml");
    assert!(arts[0].1.contains("name = \"demo\""));
    assert_eq!(arts[1].0, "src/lib.rs");
    let source = &arts[1].1;
    assert!(source.contains("pub struct UserPrincipal {pub id: String,}"));
    assert!(source.contains("pub struct LoginRequest {pub email: String,pub password: String,}"));
    assert!(source.contains("pub struct LoginResponse {pub token: String,}"));
    assert!(source.contains("pub struct WhoamiRequest {}"));
    assert!(source.contains("pub struct WhoamiResponse {pub principal_id: String,}"));
    assert!(source
        .contains("async fn login(&self, req: &LoginRequest) -> Result<LoginResponse, Error>;"));
    assert!(source.contains(
        "async fn whoami(&self, req: &WhoamiRequest, caller: &UserPrincipal) -> Result<WhoamiResponse, Error>;"
    ));
    assert!(source.contains("pub mod auth {"));
    assert!(source.contains("actix_web::web::scope(\"auth\")"));
    assert!(source.contains("actix_web::web::resource(\"login\")"));
    assert!(source.contains("actix_web::web::resource(\"whoami\")"));
    assert!(source.contains(
        "Self::InvalidCredentials => actix_web::http::StatusCode::from_u16(401).unwrap(),"
    ));
}

#[test]
fn missing_reference_produces_no_output() {
    let config = demo_config();
    let mut bad = auth_service();
    bad.endpoints[1].principal = Some("admin".to_string());
    match generate(&RustServer, &config, vec![bad]) {
        Err(Error::SchemaValidation(ValidationError::UnknownPrincipal {
            endpoint_id,
            principal_id,
        })) => {
            assert_eq!(endpoint_id, "whoami");
            assert_eq!(principal_id, "admin");
        }
        other => panic!("expected an unknown-principal defect, got {:?}", other),
    }
}

#[test]
fn one_resolver_per_distinct_principal() {
    let config = demo_config();
    let mut service = auth_service();
    service.endpoints[0].principal = Some("user".to_string());
    let arts = generate(&RustServer, &config, vec![service]).unwrap();
    let source = &arts[1].1;
    assert_eq!(source.matches(", resolver_user: ").count(), 1);
    let scope = &source[source.find("pub fn create_scope").unwrap()..];
    assert!(scope.starts_with(
        "pub fn create_scope(svc: std::sync::Arc<dyn Service>, resolver_user: \
         std::sync::Arc<dyn HttpPrincipalResolver<UserPrincipal>>) -> actix_web::Scope {"
    ));
}

#[test]
fn request_fields_keep_declaration_order() {
    let config = Config {
        project_name: "demo".to_string(),
        principals: vec![],
        errors: vec![],
    };
    let service = Service {
        id: "things".to_string(),
        endpoints: vec![Endpoint {
            id: "make".to_string(),
            req: Some(vec![
                ("a".to_string(), Type::String),
                ("b".to_string(), Type::String),
            ]),
            res: None,
            principal: None,
            method: EndpointMethod::Post,
        }],
    };
    let arts = generate(&RustServer, &config, vec![service]).unwrap();
    assert!(arts[1]
        .1
        .contains("pub struct MakeRequest {pub a: String,pub b: String,}"));
}

#[test]
fn services_are_rendered_in_id_order() {
    let config = Config {
        project_name: "demo".to_string(),
        principals: vec![],
        errors: vec![],
    };
    let beta = Service {
        id: "beta".to_string(),
        endpoints: vec![],
    };
    let alpha = Service {
        id: "alpha".to_string(),
        endpoints: vec![],
    };
    let one = generate(&RustServer, &config, vec![beta.clone(), alpha.clone()]).unwrap();
    let two = generate(&RustServer, &config, vec![alpha, beta]).unwrap();
    assert_eq!(one, two);
    let source = &one[1].1;
    assert!(source.find("pub mod alpha {").unwrap() < source.find("pub mod beta {").unwrap());
}

#[test]
fn sort_services_orders_by_id() {
    let mk = |id: &str| Service {
        id: id.to_string(),
        endpoints: vec![],
    };
    let sorted = sort_services(vec![mk("gamma"), mk("alpha"), mk("beta")]);
    let ids: Vec<&str> = sorted.iter().map(|s| s.id.as_str()).collect();
    assert_eq!(ids, vec!["alpha", "beta", "gamma"]);
}

#[test]
fn error_status_uses_declared_code_or_default() {
    let coded = EndpointError {
        id: "gone".to_string(),
        code: Some(410),
    };
    let plain = EndpointError {
        id: "odd".to_string(),
        code: None,
    };
    assert_eq!(error_status(&coded), 410);
    assert_eq!(error_status(&plain), 500);
}

#[test]
fn uncoded_error_gets_no_explicit_arm() {
    let config = Config {
        project_name: "demo".to_string(),
        principals: vec![],
        errors: vec![EndpointError {
            id: "odd_failure".to_string(),
            code: None,
        }],
    };
    let mut out = String::new();
    RustServer.config(&config, &mut out).unwrap();
    assert!(out.contains("#[display(fmt = \"odd_failure\")] OddFailure,"));
    assert!(!out.contains("Self::OddFailure"));
    assert!(out.contains("_ => actix_web::http::StatusCode::INTERNAL_SERVER_ERROR,"));
}

#[test]
fn generator_identity_and_layout() {
    assert_eq!(RustServer.name(), "rust_server");
    assert_eq!(RustServer.source_dir(), "src");
    assert_eq!(RustServer.source_file(), "lib.rs");
    let commands = RustServer.post_commands();
    assert_eq!(commands.len(), 2);
    assert_eq!(commands[0].0, "cargo");
    assert_eq!(commands[0].1, vec!["fmt".to_string()]);
    assert_eq!(commands[1].1, vec!["check".to_string()]);
}

#[test]
fn helper_derivations() {
    assert_eq!(rust_type(&Type::String), "String");
    let e = Endpoint {
        id: "login".to_string(),
        req: None,
        res: None,
        principal: None,
        method: EndpointMethod::Post,
    };
    assert_eq!(http_endpoint_fn(&e), "http_handler_login");
    assert_eq!(EndpointMethod::default().as_str(), "post");
    assert_eq!(EndpointMethod::Get.as_str(), "get");
}

#[test]
fn empty_mappings_render_empty_records() {
    let config = Config {
        project_name: "demo".to_string(),
        principals: vec![],
        errors: vec![],
    };
    let service = Service {
        id: "ping".to_string(),
        endpoints: vec![Endpoint {
            id: "ping".to_string(),
            req: None,
            res: None,
            principal: None,
            method: EndpointMethod::Post,
        }],
    };
    let arts = generate(&RustServer, &config, vec![service]).unwrap();
    assert!(arts[1].1.contains("pub struct PingRequest {}"));
    assert!(arts[1].1.contains("pub struct PingResponse {}"));
}
