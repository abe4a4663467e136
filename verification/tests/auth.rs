use axon::auth::{require_axon_auth, AxonAuth};

fn login(axon: bool) -> AxonAuth {
    AxonAuth { token: "t".into(), axon }
}

#[test]
fn an_axon_login_passes_unchanged() {
    let auth = require_axon_auth(Some(login(true)), "missing", "other").unwrap();
    assert_eq!(auth.token, "t");
    assert!(auth.is_axon_auth());
}

#[test]
fn other_logins_and_none_are_refused_with_their_message() {
    let required = agent_client_protocol::Error::auth_required();
    for (current, message) in [(None, "missing"), (Some(login(false)), "other")] {
        let error = require_axon_auth(current, "missing", "other").unwrap_err();
        assert_eq!(error.code, required.code);
        assert_eq!(i32::from(error.code), -32000);
        assert_eq!(error.message, "Authentication required");
        assert_eq!(error.data, Some(serde_json::Value::from(message)));
    }
}
