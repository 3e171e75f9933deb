use zenus::config::{select_mode, ConfigError, Mode, Settings};
use zenus::error::NoteError;
use zenus::layout::Partition;
use zenus::remote::{check_response, check_status, request_for, Method, Operation, RemoteError};
use zenus::service::{
    authorized, status_for, ServerState, STATUS_FAILED, STATUS_OK, STATUS_UNAUTHORIZED,
};

fn settings(host: Option<&str>, url: Option<&str>, path: Option<&str>) -> Settings {
    Settings {
        host: host.map(|s| s.to_string()),
        port: 8888,
        url: url.map(|s| s.to_string()),
        auth: None,
        path: path.map(|s| s.to_string()),
    }
}

fn state(token: Option<&str>) -> ServerState {
    ServerState { auth_token: token.map(|s| s.to_string()), local_path: None }
}

#[test]
fn host_and_url_together_are_refused() {
    assert!(matches!(
        select_mode(&settings(Some("0.0.0.0"), Some("http://x"), None)),
        Err(ConfigError::ServerAndClient)
    ));
    assert!(matches!(
        select_mode(&settings(Some("0.0.0.0"), Some("http://x"), Some("/tmp"))),
        Err(ConfigError::ServerAndClient)
    ));
}

#[test]
fn url_and_path_together_are_refused() {
    assert!(matches!(
        select_mode(&settings(None, Some("http://x"), Some("/tmp"))),
        Err(ConfigError::ClientAndPath)
    ));
}

#[test]
fn a_host_selects_the_server() {
    match select_mode(&settings(Some("127.0.0.1"), None, Some("/tmp"))) {
        Ok(Mode::Server { host, port }) => {
            assert_eq!(host, "127.0.0.1");
            assert_eq!(port, 8888);
        }
        _ => panic!("not the server mode"),
    }
}

#[test]
fn a_url_selects_the_client() {
    match select_mode(&settings(None, Some("http://server:8888"), None)) {
        Ok(Mode::Remote { url }) => assert_eq!(url, "http://server:8888"),
        _ => panic!("not the client mode"),
    }
}

#[test]
fn neither_selects_the_local_mode() {
    assert!(matches!(select_mode(&settings(None, None, None)), Ok(Mode::Local)));
    assert!(matches!(select_mode(&settings(None, None, Some("/tmp"))), Ok(Mode::Local)));
}

#[test]
fn config_errors_have_messages() {
    assert!(ConfigError::ServerAndClient.message().contains("--host"));
    assert!(ConfigError::ClientAndPath.message().contains("--path"));
}

#[test]
fn note_errors_have_messages() {
    assert_eq!(NoteError::NotFound.message(), "File not found");
    assert_eq!(NoteError::ArchivedNotFound.message(), "Archived file not found");
    assert_eq!(NoteError::Metadata.message(), "Failed to serialize metadata");
}

#[test]
fn requests_follow_the_routes() {
    let base = "http://h:1";
    let cases = [
        (Operation::List { partition: Partition::Active }, Method::Get, "http://h:1/notes"),
        (Operation::List { partition: Partition::Archived }, Method::Get, "http://h:1/notes/archive"),
        (Operation::Put, Method::Post, "http://h:1/notes"),
        (
            Operation::Delete { partition: Partition::Active, id: "n1".to_string() },
            Method::Delete,
            "http://h:1/notes/n1",
        ),
        (
            Operation::Delete { partition: Partition::Archived, id: "n1".to_string() },
            Method::Delete,
            "http://h:1/notes/n1/archive",
        ),
        (Operation::Archive { id: "n1".to_string() }, Method::Post, "http://h:1/notes/n1/archive"),
        (Operation::Unarchive { id: "n1".to_string() }, Method::Post, "http://h:1/notes/n1/unarchive"),
        (Operation::Reorder, Method::Post, "http://h:1/notes/reorder"),
    ];
    for (operation, method, url) in cases {
        let request = request_for(base, None, &operation);
        assert_eq!(request.method, method);
        assert_eq!(request.url, url);
        assert_eq!(request.authorization, None);
    }
}

#[test]
fn requests_carry_the_credential_unchanged() {
    let token = " Bearer s3cret ".to_string();
    let request = request_for("http://h", Some(&token), &Operation::Put);
    assert_eq!(request.authorization, Some(" Bearer s3cret ".to_string()));
}

#[test]
fn only_a_status_from_200_to_299_is_success() {
    assert_eq!(check_status(200), Ok(()));
    assert_eq!(check_status(204), Ok(()));
    assert_eq!(check_status(299), Ok(()));
    assert_eq!(check_status(199), Err(RemoteError::Status(199)));
    assert_eq!(check_status(300), Err(RemoteError::Status(300)));
    assert_eq!(check_status(401), Err(RemoteError::Status(401)));
    assert_eq!(check_status(500), Err(RemoteError::Status(500)));
    assert_eq!(check_status(0), Err(RemoteError::Status(0)));
}

#[test]
fn no_response_is_a_failure_of_transport() {
    assert_eq!(check_response(None), Err(RemoteError::Transport));
    assert_eq!(check_response(Some(200)), Ok(()));
    assert_eq!(check_response(Some(500)), Err(RemoteError::Status(500)));
}

#[test]
fn without_a_credential_every_request_passes() {
    assert!(authorized(&state(None), None));
    assert!(authorized(&state(None), Some("anything")));
}

#[test]
fn with_a_credential_the_header_must_match_exactly() {
    let server = state(Some("secret"));
    assert!(authorized(&server, Some("secret")));
    assert!(!authorized(&server, None));
    assert!(!authorized(&server, Some("Secret")));
    assert!(!authorized(&server, Some("secret ")));
    assert!(!authorized(&server, Some("Bearer secret")));
    assert!(!authorized(&server, Some("")));
}

#[test]
fn status_answers_the_outcome() {
    assert_eq!(status_for(true, true), 200);
    assert_eq!(status_for(true, false), 500);
    assert_eq!(status_for(false, true), 401);
    assert_eq!(status_for(false, false), 401);
    assert_eq!(STATUS_OK, 200);
    assert_eq!(STATUS_UNAUTHORIZED, 401);
    assert_eq!(STATUS_FAILED, 500);
}
