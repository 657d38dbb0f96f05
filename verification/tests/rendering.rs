use idiomatic::CodeGenerator;
use idiomatic::Config;
use idiomatic::Endpoint;
use idiomatic::EndpointError;
use idiomatic::EndpointMethod;
use idiomatic::Principal;
use idiomatic::RustServer;
use idiomatic::Service;
use idiomatic::Type;

fn demo_config() -> Config {
    Config {
        project_name: "demo".to_string(),
        principals: vec![Principal {
            id: "user".to_string(),
            attributes: vec![("id".to_string(), Type::String)],
        }],
        errors: vec![EndpointError {
            id: "invalid_credentials".to_string(),
            code: Some(401),
        }],
    }
}

fn auth_service() -> Service {
    Service {
        id: "auth".to_string(),
        endpoints: vec![
            Endpoint {
                id: "login".to_string(),
                req: Some(vec![
                    ("email".to_string(), Type::String),
                    ("password".to_string(), Type::String),
                ]),
                res: Some(vec![("token".to_string(), Type::String)]),
                principal: None,
                method: EndpointMethod::Post,
            },
            Endpoint {
                id: "whoami".to_string(),
                req: Some(vec![]),
                res: Some(vec![("principal_id".to_string(), Type::String)]),
                principal: Some("user".to_string()),
                method: EndpointMethod::Post,
            },
        ],
    }
}

#[test]
fn config_output_has_principal_record() {
    let gen = RustServer;
    let config = demo_config();
    let mut out = String::new();
    gen.config(&config, &mut out).unwrap();
    assert!(out.contains("pub struct UserPrincipal {pub id: String,}"));
}

#[test]
fn config_output_maps_declared_error_to_status() {
    let gen = RustServer;
    let config = demo_config();
    let mut out = String::new();
    gen.config(&config, &mut out).unwrap();
    assert!(out.contains(
        "Self::InvalidCredentials => actix_web::http::StatusCode::from_u16(401).unwrap(),"
    ));
    assert!(out.contains("_ => actix_web::http::StatusCode::INTERNAL_SERVER_ERROR,"));
}

#[test]
fn service_output_has_records_contract_and_routes() {
    let gen = RustServer;
    let service = auth_service();
    let mut out = String::new();
    gen.service(&service, &mut out).unwrap();
    assert!(out.contains("pub struct LoginRequest {pub email: String,pub password: String,}"));
    assert!(out.contains("pub struct LoginResponse {pub token: String,}"));
    assert!(out.contains("pub struct WhoamiRequest {}"));
    assert!(out.contains("pub struct WhoamiResponse {pub principal_id: String,}"));
    assert!(out.contains("async fn login(&self, req: &LoginRequest) -> Result<LoginResponse, Error>;"));
    assert!(out.contains(
        "async fn whoami(&self, req: &WhoamiRequest, caller: &UserPrincipal) -> Result<WhoamiResponse, Error>;"
    ));
    assert!(out.contains("pub mod auth {"));
    assert!(out.contains("actix_web::web::resource(\"login\")"));
    assert!(out.contains("actix_web::web::resource(\"whoami\")"));
}

#[test]
fn rendering_twice_is_byte_identical() {
    let gen = RustServer;
    let config = demo_config();
    let service = auth_service();
    let mut first = String::new();
    gen.config(&config, &mut first).unwrap();
    gen.service(&service, &mut first).unwrap();
    let mut second = String::new();
    gen.config(&config, &mut second).unwrap();
    gen.service(&service, &mut second).unwrap();
    assert_eq!(first, second);
}
