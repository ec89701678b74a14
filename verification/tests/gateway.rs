use vault_gateway::limiter::{LimitError, TIMEOUT_NANOS};
use vault_gateway::server::{Route, Server};

const SECOND: u64 = 1_000_000_000;

#[test]
fn timeout_multiple_users() {
    let mut server: Server = Server::new();
    let user_1 = "AUTH_TOKEN_01".to_string();
    let user_2 = "AUTH_TOKEN_02".to_string();

    for _ in 0..3 {
        let response = server.handle_request(Route::Vault, user_1.clone());
        assert!(response.is_ok());
    }
    let response = server.handle_request(Route::Vault, user_1.clone());
    assert!(response.is_err());

    // user 2
    for _ in 0..3 {
        let response = server.handle_request(Route::Vault, user_2.clone());
        assert!(response.is_ok());
    }
    let response = server.handle_request(Route::Vault, user_2.clone());
    assert!(response.is_err());
}

#[test]
fn no_timeout() {
    let mut server = Server::new();
    let authorization_token = "AUTH_TOKEN_01".to_string();
    let mut now: u64 = 0;

    for _ in 0..20 {
        let response = server.handle_request_at(Route::Vault, authorization_token.clone(), now);
        assert!(response.is_ok());
        now += 21 * SECOND;
    }
}

#[test]
fn no_timeout_2() {
    let mut server = Server::new();
    let request = Route::Vault;
    let authorization_token = "AUTH_TOKEN_01".to_string();
    let mut now: u64 = 0;

    for _ in 0..3 {
        for _ in 0..3 {
            let response = server.handle_request_at(request, authorization_token.clone(), now);
            assert!(response.is_ok());
        }
        now += 61 * SECOND;
    }
}

#[test]
fn timeout_vault() {
    let mut server = Server::new();
    let request = Route::Vault;
    let authorization_token = "AUTH_TOKEN_01".to_string();
    let now: u64 = 5 * SECOND;
    for _ in 0..3 {
        let response = server.handle_request_at(request, authorization_token.clone(), now);
        assert!(response.is_ok());
    }
    let response = server.handle_request_at(request, authorization_token.clone(), now);
    if let Err(LimitError::Timeout(duration)) = response {
        let response =
            server.handle_request_at(request, authorization_token.clone(), now + duration);
        assert!(response.is_ok());
    } else {
        panic!("Not properly rate limited!")
    }
}

#[test]
fn timeout_items() {
    let mut server = Server::new();
    let request = Route::Items;
    let authorization_token = "AUTH_TOKEN_01".to_string();
    let now: u64 = 5 * SECOND;
    for _ in 0..1200 {
        let response = server.handle_request_at(request, authorization_token.clone(), now);
        assert!(response.is_ok());
    }
    let response = server.handle_request_at(request, authorization_token.clone(), now);
    if let Err(LimitError::Timeout(duration)) = response {
        let response =
            server.handle_request_at(request, authorization_token.clone(), now + duration);
        assert!(response.is_ok());
    } else {
        panic!("Not properly rate limited!")
    }
}

#[test]
fn timeout_item_id() {
    let mut server = Server::new();
    let request = Route::Id(20);
    let authorization_token = "AUTH_TOKEN_01".to_string();
    let now: u64 = 5 * SECOND;
    for _ in 0..60 {
        let response = server.handle_request_at(request, authorization_token.clone(), now);
        assert!(response.is_ok());
    }
    let response = server.handle_request_at(request, authorization_token.clone(), now);
    if let Err(LimitError::Timeout(duration)) = response {
        let response =
            server.handle_request_at(request, authorization_token.clone(), now + duration);
        assert!(response.is_ok());
    } else {
        panic!("Not properly rate limited!")
    }
}

#[test]
fn every_route_has_its_limit() {
    assert_eq!(Route::Vault.request_limit(), 3);
    assert_eq!(Route::Items.request_limit(), 1200);
    assert_eq!(Route::Id(0).request_limit(), 60);
    assert_eq!(Route::Id(usize::MAX).request_limit(), 60);
}

#[test]
fn routes_share_a_slot_only_with_their_kind() {
    assert_eq!(Route::Id(52).slot(), Route::Id(54).slot());
    assert_ne!(Route::Vault.slot(), Route::Items.slot());
    assert_ne!(Route::Vault.slot(), Route::Id(0).slot());
    assert_ne!(Route::Items.slot(), Route::Id(0).slot());
}

#[test]
fn each_route_admits_its_limit_and_rejects_the_next() {
    for route in [Route::Vault, Route::Items, Route::Id(9)] {
        let mut server = Server::new();
        let limit = route.request_limit() as u64;
        for k in 0..limit {
            assert_eq!(server.handle_request_at(route, "A".to_string(), SECOND + k), Ok(()));
        }
        assert_eq!(
            server.handle_request_at(route, "A".to_string(), SECOND + limit),
            Err(LimitError::Timeout(TIMEOUT_NANOS - limit))
        );
    }
}

#[test]
fn fourth_vault_request_is_told_to_wait_about_a_minute() {
    let mut server = Server::new();
    let token = "AUTH_TOKEN_01".to_string();
    for _ in 0..3 {
        assert_eq!(server.handle_request(Route::Vault, token.clone()), Ok(()));
    }
    match server.handle_request(Route::Vault, token.clone()) {
        Err(LimitError::Timeout(retry)) => {
            assert!(retry <= 60 * SECOND);
            assert!(retry > 59 * SECOND);
        }
        Ok(()) => panic!("Not properly rate limited!"),
    }
}

#[test]
fn retry_after_rejection_opens_a_window_with_one_request() {
    let mut server = Server::new();
    let token = "AUTH_TOKEN_01".to_string();
    for k in 0..3u64 {
        assert_eq!(server.handle_request_at(Route::Vault, token.clone(), 10 + k), Ok(()));
    }
    let now: u64 = 20 * SECOND;
    let retry = match server.handle_request_at(Route::Vault, token.clone(), now) {
        Err(LimitError::Timeout(retry)) => retry,
        Ok(()) => panic!("Not properly rate limited!"),
    };
    assert_eq!(retry, TIMEOUT_NANOS - (now - 10));
    let later: u64 = now + retry;
    assert_eq!(server.handle_request_at(Route::Vault, token.clone(), later), Ok(()));
    assert_eq!(server.handle_request_at(Route::Vault, token.clone(), later + 1), Ok(()));
    assert_eq!(server.handle_request_at(Route::Vault, token.clone(), later + 2), Ok(()));
    assert_eq!(
        server.handle_request_at(Route::Vault, token.clone(), later + 3),
        Err(LimitError::Timeout(TIMEOUT_NANOS - 3))
    );
}

#[test]
fn exhausted_route_leaves_the_other_routes_open() {
    let mut server = Server::new();
    let token = "AUTH_TOKEN_01".to_string();
    for _ in 0..3 {
        assert_eq!(server.handle_request_at(Route::Vault, token.clone(), 0), Ok(()));
    }
    assert!(server.handle_request_at(Route::Vault, token.clone(), 0).is_err());
    for _ in 0..1200 {
        assert_eq!(server.handle_request_at(Route::Items, token.clone(), 0), Ok(()));
    }
    assert!(server.handle_request_at(Route::Items, token.clone(), 0).is_err());
    for _ in 0..60 {
        assert_eq!(server.handle_request_at(Route::Id(1), token.clone(), 0), Ok(()));
    }
    assert!(server.handle_request_at(Route::Id(1), token.clone(), 0).is_err());
    assert!(server.handle_request_at(Route::Vault, token.clone(), 0).is_err());
}

#[test]
fn exhausted_identity_leaves_the_other_identities_open() {
    let mut server = Server::new();
    for _ in 0..3 {
        assert_eq!(server.handle_request_at(Route::Vault, "A".to_string(), 0), Ok(()));
    }
    assert!(server.handle_request_at(Route::Vault, "A".to_string(), 1).is_err());
    for _ in 0..3 {
        assert_eq!(server.handle_request_at(Route::Vault, "B".to_string(), 2), Ok(()));
    }
    assert_eq!(
        server.handle_request_at(Route::Vault, "B".to_string(), 3),
        Err(LimitError::Timeout(TIMEOUT_NANOS - 1))
    );
    assert_eq!(
        server.handle_request_at(Route::Vault, "A".to_string(), 3),
        Err(LimitError::Timeout(TIMEOUT_NANOS - 3))
    );
}

#[test]
fn items_share_one_quota_whatever_the_id() {
    let mut server = Server::new();
    let token = "AUTH_TOKEN_01".to_string();
    for k in 0..30usize {
        assert_eq!(server.handle_request_at(Route::Id(52), token.clone(), k as u64), Ok(()));
        assert_eq!(server.handle_request_at(Route::Id(54), token.clone(), k as u64), Ok(()));
    }
    assert_eq!(
        server.handle_request_at(Route::Id(52), token.clone(), 30),
        Err(LimitError::Timeout(TIMEOUT_NANOS - 30))
    );
    assert_eq!(
        server.handle_request_at(Route::Id(7), token.clone(), 31),
        Err(LimitError::Timeout(TIMEOUT_NANOS - 31))
    );
}

#[test]
fn gateways_do_not_share_state() {
    let mut first = Server::new();
    let mut second = Server::new();
    for _ in 0..3 {
        assert_eq!(first.handle_request_at(Route::Vault, "A".to_string(), 0), Ok(()));
    }
    assert!(first.handle_request_at(Route::Vault, "A".to_string(), 0).is_err());
    assert_eq!(second.handle_request_at(Route::Vault, "A".to_string(), 0), Ok(()));
}
