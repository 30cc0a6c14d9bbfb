use zep_clockify::clockify::config::Config;
use zep_clockify::clockify::error::Error;
use zep_clockify::clockify::uri_builder::{build_uri, built_uri, parse_uri, read_uri, URIBuilder, UriParts};

#[test]
fn test_uri_builder() {
    let base_uri = parse_uri("https://hello.world").unwrap();

    let uri_builder = URIBuilder::new(base_uri.clone()).unwrap();
    assert_eq!(
        uri_builder.get_workspaces().to_string(),
        "https://hello.world/v1/workspaces"
    );

    let base_uri = parse_uri("https://hello.world/").unwrap();

    let uri_builder = URIBuilder::new(base_uri.clone()).unwrap();
    assert_eq!(
        uri_builder.get_workspaces().to_string(),
        "https://hello.world/v1/workspaces"
    );

    assert_eq!(
        uri_builder.get_server_address().to_string(),
        "hello.world:80"
    );
}

#[test]
fn config_with_the_public_endpoint() {
    let config = Config::new("secret".to_string());
    assert_eq!(config.api_key, "secret");
    assert_eq!(config.endpoint, "https://api.clockify.me/api/");
}

#[test]
fn parts_of_a_uri() {
    let parts = parse_uri("https://user@api.example.org:8443/base/path?x=1&y=2").unwrap();
    assert_eq!(
        parts,
        UriParts {
            scheme: Some("https".to_string()),
            authority: Some("user@api.example.org:8443".to_string()),
            host: Some("api.example.org".to_string()),
            port: Some(8443),
            path: "/base/path".to_string(),
            query: Some("x=1&y=2".to_string()),
        }
    );
}

#[test]
fn text_that_is_no_uri() {
    assert!(matches!(parse_uri("https://exa mple.org/"), Err(Error::IO(_))));
    assert!(matches!(parse_uri(""), Err(Error::IO(_))));
}

#[test]
fn refusals_become_errors() {
    assert_eq!(read_uri(Err("no".to_string())), Err(Error::IO("no".to_string())));
    assert_eq!(
        built_uri(Err("no".to_string())),
        Err(Error::Internal("Failed building URI: no".to_string()))
    );
    assert_eq!(built_uri(Ok("http://a/".to_string())), Ok("http://a/".to_string()));
}

#[test]
fn uri_without_a_host_gives_no_builder() {
    let parts = parse_uri("/only/a/path").unwrap();
    assert_eq!(parts.host, None);
    assert!(matches!(
        URIBuilder::new(parts),
        Err(Error::InvalidURI(message)) if message == "URI must have a host"
    ));
}

#[test]
fn resource_below_a_base_path_with_query() {
    let base = parse_uri("http://localhost:9000/api?key=abc").unwrap();
    assert_eq!(
        build_uri(&base, "workspaces").unwrap(),
        "http://localhost:9000/api/v1/workspaces?key=abc"
    );
    let base = parse_uri("http://localhost:9000/api/").unwrap();
    assert_eq!(build_uri(&base, "workspaces").unwrap(), "http://localhost:9000/api/v1/workspaces");
}

#[test]
fn resource_that_cannot_be_built() {
    let base = parse_uri("http://localhost/api").unwrap();
    assert!(matches!(
        build_uri(&base, "work spaces"),
        Err(Error::Internal(message)) if message.starts_with("Failed building URI: ")
    ));
}

#[test]
fn projects_of_a_workspace() {
    let builder = URIBuilder::new(parse_uri("https://api.clockify.me/api/").unwrap()).unwrap();
    assert_eq!(
        builder.get_projects("w42").unwrap(),
        "https://api.clockify.me/api/v1/workspaces/w42/projects"
    );
    assert_eq!(builder.get_server_address(), "api.clockify.me:80");
}

#[test]
fn server_address_with_a_port() {
    let builder = URIBuilder::new(parse_uri("http://127.0.0.1:8080/").unwrap()).unwrap();
    assert_eq!(builder.get_server_address(), "127.0.0.1:8080");
}

#[test]
fn message_of_each_error() {
    assert_eq!(Error::IO("a".to_string()).message(), "a");
    assert_eq!(Error::Internal("b".to_string()).message(), "b");
    assert_eq!(Error::InvalidURI("c".to_string()).message(), "c");
    assert_eq!(Error::RestAPI("d".to_string()).message(), "d");
}
