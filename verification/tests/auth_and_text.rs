use term_sessions::connections::{plan_auth, AuthMethod, ConnectionDirectory, SshAuthParams};
use term_sessions::errors::SessionError;
use term_sessions::text::{expand_tilde, split_lines, str_trim};

fn params(
    auth_type: &str,
    password: Option<&str>,
    key_path: Option<&str>,
    key_passphrase: Option<&str>,
) -> SshAuthParams {
    SshAuthParams {
        auth_type: auth_type.to_string(),
        password: password.map(|s| s.to_string()),
        key_path: key_path.map(|s| s.to_string()),
        key_passphrase: key_passphrase.map(|s| s.to_string()),
    }
}

#[test]
fn password_auth_needs_a_password() {
    match plan_auth(params("password", Some("opensesame"), None, None)) {
        Ok(AuthMethod::Password { password }) => assert_eq!(password.as_str(), "opensesame"),
        _ => panic!("password auth with a password must succeed"),
    }
    match plan_auth(params("password", None, None, None)) {
        Err(SessionError::AuthFailure(m)) => {
            assert_eq!(m.as_str(), "password required for password auth")
        }
        _ => panic!("password auth without a password must fail"),
    }
}

#[test]
fn key_auth_needs_a_key_path() {
    match plan_auth(params("key", None, Some("~/.ssh/id_ed25519"), Some("pp"))) {
        Ok(AuthMethod::Key { key_path, passphrase }) => {
            assert_eq!(key_path.as_str(), "~/.ssh/id_ed25519");
            assert_eq!(passphrase.as_deref(), Some("pp"));
        }
        _ => panic!("key auth with a key path must succeed"),
    }
    match plan_auth(params("key", None, None, None)) {
        Err(SessionError::AuthFailure(m)) => {
            assert_eq!(m.as_str(), "key path required for key auth")
        }
        _ => panic!("key auth without a key path must fail"),
    }
}

#[test]
fn unknown_auth_type_is_named_in_the_error() {
    match plan_auth(params("token", None, None, None)) {
        Err(SessionError::AuthFailure(m)) => assert_eq!(m.as_str(), "unknown auth type: token"),
        _ => panic!("unknown auth type must fail"),
    }
}

#[test]
fn connection_directory_lifecycle() {
    let mut dir = ConnectionDirectory::new();
    assert!(!dir.is_connected(&b"c1".to_vec()));
    assert!(dir
        .connect(b"c1".to_vec(), "host.example".to_string(), "user".to_string())
        .is_ok());
    assert!(dir.is_connected(&b"c1".to_vec()));
    assert!(matches!(
        dir.connect(b"c1".to_vec(), "other".to_string(), "user".to_string()),
        Err(SessionError::AlreadyExists)
    ));
    assert!(dir.disconnect(&b"c1".to_vec()).is_ok());
    assert!(!dir.is_connected(&b"c1".to_vec()));
    assert!(matches!(
        dir.disconnect(&b"c1".to_vec()),
        Err(SessionError::NotFound)
    ));
}

#[test]
fn tilde_expansion_uses_the_given_home() {
    assert_eq!(
        expand_tilde("~/.ssh/key", Some("/home/u")).as_str(),
        "/home/u/.ssh/key"
    );
    assert_eq!(expand_tilde("/abs/path", Some("/home/u")).as_str(), "/abs/path");
    assert_eq!(expand_tilde("~/x", None).as_str(), "~/x");
    assert_eq!(expand_tilde("~", Some("/home/u")).as_str(), "~");
}

#[test]
fn trim_and_lines_behave_like_the_tools_output_needs() {
    assert_eq!(str_trim("  spaced \t\n"), "spaced");
    assert_eq!(str_trim(""), "");
    assert_eq!(str_trim(" \t "), "");

    let ls = split_lines("a\r\nb\n\nc");
    let got: Vec<&str> = ls.iter().map(|s| s.as_str()).collect();
    assert_eq!(got, vec!["a", "b", "", "c"]);
    assert!(split_lines("").is_empty());
}

#[test]
fn error_messages_are_descriptive() {
    assert_eq!(SessionError::NotFound.message().as_str(), "session not found");
    assert_eq!(
        SessionError::TransportFailure("pipe closed".to_string())
            .message()
            .as_str(),
        "transport failure: pipe closed"
    );
    assert_eq!(
        SessionError::ResizeFailed.message().as_str(),
        "failed to resize session"
    );
    assert_eq!(
        SessionError::AlreadyExists.message().as_str(),
        "session already exists with this id"
    );
    assert_eq!(
        SessionError::AuthFailure("no key".to_string()).message().as_str(),
        "authentication failed: no key"
    );
}
