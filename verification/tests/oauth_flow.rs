//! The OAuth flow controller, the credential cache, and token resolution.

use memini::oauth::extract_auth_code;
use memini::oauth::resolve_client_id;
use memini::oauth::resolve_token;
use memini::oauth::OAuthError;
use memini::oauth::OAuthPhase;
use memini::oauth::OAUTH_CALLBACK_TIMEOUT_SECS;
use memini::LocalMcpStore;
use memini::OAuthController;
use memini::PendingOAuth;

fn pending_for(server_id: &str) -> PendingOAuth {
    PendingOAuth {
        server_id: String::from(server_id),
        auth_url: String::from("https://auth.example/authorize?client_id=abc"),
        redirect_uri: String::from("http://127.0.0.1:8976/callback"),
        token_endpoint: String::from("https://auth.example/token"),
        client_id: Some(String::from("abc")),
        client_secret: None,
        code_verifier: String::from("ver"),
        state_nonce: String::from("nonce"),
    }
}

#[test]
fn timeout_keeps_the_flow_resolvable_manually() {
    let mut ctl = OAuthController::new();
    assert_eq!(ctl.phase, OAuthPhase::Idle);
    assert_eq!(OAUTH_CALLBACK_TIMEOUT_SECS, 120);

    ctl.begin(pending_for("server1"));
    assert_eq!(ctl.phase, OAuthPhase::AwaitingCallback);

    // No callback within the timeout: reported, and the pending flow stays.
    ctl.on_timeout();
    assert_eq!(ctl.phase, OAuthPhase::TimedOut);
    assert!(ctl.pending.is_some());

    // Manual completion for another server is rejected and changes nothing.
    assert_eq!(
        ctl.manual_complete("server2").unwrap_err(),
        OAuthError::WrongServer
    );
    assert!(ctl.pending.is_some());

    // Manual completion for the pending server finishes the same flow.
    let resolved = ctl.manual_complete("server1").expect("manual completion");
    assert_eq!(resolved.server_id, "server1");
    assert_eq!(ctl.phase, OAuthPhase::ManuallyCompleted);
    assert!(ctl.pending.is_none());

    // With nothing pending a further manual completion is rejected.
    assert_eq!(
        ctl.manual_complete("server1").unwrap_err(),
        OAuthError::NoPending
    );
}

#[test]
fn a_new_flow_discards_a_stale_one() {
    let mut ctl = OAuthController::new();
    ctl.begin(pending_for("old"));
    ctl.begin(pending_for("new"));
    let resolved = ctl.complete().expect("callback completion");
    assert_eq!(resolved.server_id, "new");
    assert_eq!(ctl.phase, OAuthPhase::Completed);
}

#[test]
fn auth_codes_come_from_raw_input_or_redirect_urls() {
    assert_eq!(extract_auth_code("  rawcode123  ").as_deref(), Some("rawcode123"));
    assert_eq!(
        extract_auth_code("http://127.0.0.1:8976/callback?state=n&code=xyz&x=1").as_deref(),
        Some("xyz")
    );
    assert!(extract_auth_code("http://127.0.0.1:8976/callback").is_none());
    assert!(extract_auth_code("http://host/cb?state=n").is_none());
    assert!(extract_auth_code("   ").is_none());
}

#[test]
fn stored_token_round_trips_through_resolution_order() {
    let mut store = LocalMcpStore::new();
    // The manual completion path stores the token locally.
    store.set_token("server1", String::from("tok-manual"));

    // Afterwards the same resolution order used for automatic connections
    // finds it, before the remote store and before static configuration.
    let resolved = resolve_token(
        &store,
        "server1",
        Some(String::from("tok-remote")),
        Some(String::from("tok-config")),
        Some(String::from("tok-env")),
    );
    assert_eq!(resolved.as_deref(), Some("tok-manual"));

    // Without a local entry the remote store wins, then configuration.
    let other = resolve_token(
        &store,
        "server2",
        Some(String::from("tok-remote")),
        Some(String::from("tok-config")),
        None,
    );
    assert_eq!(other.as_deref(), Some("tok-remote"));
    let config_only = resolve_token(&store, "server3", None, Some(String::from("tok-config")), None);
    assert_eq!(config_only.as_deref(), Some("tok-config"));
    assert_eq!(resolve_token(&store, "server4", None, None, None), None);

    // Removing the token unstores it.
    store.remove_token("server1");
    let after = resolve_token(&store, "server1", None, None, None);
    assert_eq!(after, None);
}

#[test]
fn client_id_resolution_prefers_configuration() {
    let mut store = LocalMcpStore::new();
    store.set_client_id("s", String::from("cached"));
    assert_eq!(
        resolve_client_id(&store, "s", Some(String::from("explicit")), None, None, true).as_deref(),
        Some("explicit")
    );
    assert_eq!(
        resolve_client_id(&store, "s", None, Some(String::from("from-env")), None, true).as_deref(),
        Some("from-env")
    );
    assert_eq!(
        resolve_client_id(&store, "s", None, None, Some(String::from("remote")), true).as_deref(),
        Some("cached")
    );
    assert_eq!(
        resolve_client_id(&store, "t", None, None, Some(String::from("remote")), true).as_deref(),
        Some("remote")
    );
    assert_eq!(
        resolve_client_id(&store, "t", None, None, Some(String::from("remote")), false),
        None
    );
}

#[test]
fn refresh_tokens_are_cached_per_server() {
    let mut store = LocalMcpStore::new();
    store.set_refresh_token("a", String::from("r1"));
    store.set_refresh_token("a", String::from("r2"));
    store.set_token("a", String::from("t1"));
    assert_eq!(store.get_token("a").as_deref(), Some("t1"));
    assert_eq!(store.get_token("b"), None);
    assert_eq!(store.refresh_tokens.len(), 1);
    assert_eq!(store.refresh_tokens[0].1, "r2");
}
