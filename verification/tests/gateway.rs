use perp_clob::decimal::Dec;
use perp_clob::handlers::account::{
    bearer_token, equity_reply, extract_user_id, fills_reply, jwt_secret_or_fallback, onramp_reply,
    user_id_from_subject, validate_onramp, AmountSign, AuthHeader, OnRampPayload,
    FALLBACK_JWT_SECRET,
};
use perp_clob::handlers::auth::{
    check_not_registered, check_signin, claims_for, hash_new_password, issue_claims, pool_key,
    replica_nodes, signin, signup_step, signup_write_failed, token_reply, SignupNext, SignupWrite,
};
use perp_clob::handlers::orders::{
    build_cancel_request, build_create_request, build_open_orders_request, cancel_order_request,
    create_order_request, forwarded_reply, CancelOrderPayload, Forwarded, MarketPath,
    OrderInputPayload, BAD_CANCEL_SIDE, BAD_LIMIT_PRICE, BAD_ORDER_ID, BAD_ORDER_TYPE, BAD_SIDE,
    BAD_SIZE,
};
use perp_clob::handlers::positions;
use perp_clob::types::{Market, OrderRequests, OrderSide, OrderType, UNKNOWN_MARKET};

const USER: u128 = 0x2222_2222_2222_2222_2222_2222_2222_2222;

fn dec(mantissa: i64, scale: u32) -> Dec {
    Dec::new(mantissa, scale)
}

fn payload(market: &str, side: &str, order_type: &str, price: Dec, size: Dec) -> OrderInputPayload {
    OrderInputPayload {
        order_id: 7,
        market_id: market.to_string(),
        side: side.to_string(),
        order_type: order_type.to_string(),
        price,
        size,
        leverage: dec(5, 0),
    }
}

#[test]
fn market_names_are_read_case_insensitively() {
    assert_eq!(Market::from_str("SOL_PERP"), Ok(Market::SOL_PERP));
    assert_eq!(Market::from_str("sol"), Ok(Market::SOL_PERP));
    assert_eq!(Market::from_str("btc_perp"), Ok(Market::BTC_PERP));
    assert_eq!(Market::from_str("Eth"), Ok(Market::ETH_PERP));
    assert_eq!(Market::from_str("DOGE"), Err(UNKNOWN_MARKET));
    assert_eq!(
        UNKNOWN_MARKET,
        "Unsupported or unmapped market asset indicator"
    );
}

#[test]
fn limit_order_becomes_a_create_request() {
    let p = payload("sol", "buy", "Limit", dec(14500, 2), dec(2, 0));
    match build_create_request(USER, &p, 99).unwrap() {
        OrderRequests::CreateOrder(a) => {
            assert_eq!(a.order_id, 7);
            assert_eq!(a.market, Market::SOL_PERP);
            assert_eq!(a.side, OrderSide::BUY);
            assert_eq!(a.order_type, OrderType::LIMIT);
            assert!(a.price.eq_value(&dec(145, 0)));
            assert!(a.quantity.eq_value(&dec(2, 0)));
            assert!(a.leverage.eq_value(&dec(5, 0)));
            assert_eq!(a.user_id, USER);
            assert_eq!(a.pubsub_id, Some(99));
        }
        other => panic!("unexpected request {:?}", other),
    }
}

#[test]
fn market_order_carries_the_price_zero() {
    let p = payload("ETH_PERP", "SELL", "market", dec(-3, 0), dec(1, 0));
    match create_order_request(USER, &p).unwrap() {
        OrderRequests::CreateOrder(a) => {
            assert_eq!(a.order_type, OrderType::MARKET);
            assert_eq!(a.side, OrderSide::SELL);
            assert!(a.price.is_zero());
            assert!(a.pubsub_id.is_some());
        }
        other => panic!("unexpected request {:?}", other),
    }
}

#[test]
fn create_request_refusals() {
    let ok_price = dec(1, 0);
    let ok_size = dec(1, 0);
    assert_eq!(
        build_create_request(USER, &payload("XRP", "BUY", "LIMIT", ok_price, ok_size), 1).err(),
        Some(UNKNOWN_MARKET)
    );
    assert_eq!(
        build_create_request(USER, &payload("SOL", "HOLD", "LIMIT", ok_price, ok_size), 1).err(),
        Some(BAD_SIDE)
    );
    assert_eq!(
        build_create_request(USER, &payload("SOL", "BUY", "STOP", ok_price, ok_size), 1).err(),
        Some(BAD_ORDER_TYPE)
    );
    assert_eq!(
        build_create_request(USER, &payload("SOL", "BUY", "LIMIT", ok_price, Dec::zero()), 1).err(),
        Some(BAD_SIZE)
    );
    assert_eq!(
        build_create_request(USER, &payload("SOL", "BUY", "LIMIT", dec(-1, 0), ok_size), 1).err(),
        Some(BAD_LIMIT_PRICE)
    );
    assert_eq!(BAD_SIDE, "Execution side mapping must be BUY or SELL");
    assert_eq!(BAD_ORDER_TYPE, "Unsupported order type specification");
    assert_eq!(BAD_SIZE, "Order allocation quantity must be greater than zero");
    assert_eq!(
        BAD_LIMIT_PRICE,
        "Limit orders require a valid price threshold above zero"
    );
}

#[test]
fn cancellation_becomes_a_cancel_request() {
    let body = CancelOrderPayload {
        market_id: "btc".to_string(),
        side: "sell".to_string(),
        price: dec(65000, 0),
    };
    let id_text = "67e55044-10b1-426f-9247-bb680e5fe0c8";
    match build_cancel_request(USER, id_text, &body, 3).unwrap() {
        OrderRequests::CancelOrder(a) => {
            assert_eq!(a.order_id, 0x67e5504410b1426f9247bb680e5fe0c8);
            assert_eq!(a.market, Market::BTC_PERP);
            assert_eq!(a.side, OrderSide::SELL);
            assert_eq!(a.user_id, USER);
            assert_eq!(a.pubsub_id, Some(3));
        }
        other => panic!("unexpected request {:?}", other),
    }
    assert_eq!(
        cancel_order_request(USER, "not-a-uuid", &body).err(),
        Some(BAD_ORDER_ID)
    );
    let bad_side = CancelOrderPayload {
        side: "both".to_string(),
        ..body.clone()
    };
    assert_eq!(
        build_cancel_request(USER, id_text, &bad_side, 3).err(),
        Some(BAD_CANCEL_SIDE)
    );
    let bad_market = CancelOrderPayload {
        market_id: "ADA".to_string(),
        ..body
    };
    assert_eq!(
        build_cancel_request(USER, id_text, &bad_market, 3).err(),
        Some(UNKNOWN_MARKET)
    );
}

#[test]
fn open_orders_query_becomes_a_request() {
    let path = MarketPath {
        market_id: "eth".to_string(),
    };
    match build_open_orders_request(USER, &path, 5).unwrap() {
        OrderRequests::GetOpenOrders(q) => {
            assert_eq!(q.market, Market::ETH_PERP);
            assert_eq!(q.user_id, USER);
            assert_eq!(q.pubsub_id, Some(5));
        }
        other => panic!("unexpected request {:?}", other),
    }
    let unknown = MarketPath {
        market_id: "nope".to_string(),
    };
    assert_eq!(
        build_open_orders_request(USER, &unknown, 5).err(),
        Some(UNKNOWN_MARKET)
    );
}

#[test]
fn forwarded_replies() {
    let r = forwarded_reply(Forwarded::NewOrder, true);
    assert_eq!((r.status, r.message.as_str()), (202, "Order logged cleanly to processing log stream"));
    let r = forwarded_reply(Forwarded::Cancellation, false);
    assert_eq!(
        (r.status, r.message.as_str()),
        (500, "Failed to forward transaction down to the engine spine")
    );
    let r = forwarded_reply(Forwarded::OpenOrders, true);
    assert_eq!(r.status, 202);
}

#[test]
fn bearer_token_is_read_from_the_header() {
    assert_eq!(
        bearer_token(&AuthHeader::Text("Bearer abc.def".to_string())),
        Ok("abc.def".to_string())
    );
    assert_eq!(
        bearer_token(&AuthHeader::Text("Bearer ".to_string())),
        Ok(String::new())
    );
    assert_eq!(
        bearer_token(&AuthHeader::Text("Basic abc".to_string())),
        Err("Authorization scheme must be bearer")
    );
    assert_eq!(
        bearer_token(&AuthHeader::Missing),
        Err("Missing Authorization Header")
    );
    assert_eq!(
        bearer_token(&AuthHeader::Unreadable),
        Err("Invalid Header FOrmatting!")
    );
}

#[test]
fn token_subject_names_the_user() {
    assert_eq!(
        user_id_from_subject(Some("22222222-2222-2222-2222-222222222222")),
        Ok(USER)
    );
    assert_eq!(
        user_id_from_subject(Some("alice")),
        Err("Malformed User UUID payload inside token")
    );
    assert_eq!(
        user_id_from_subject(None),
        Err("Cryptographic token verification failed.")
    );
}

#[test]
fn jwt_secret_falls_back() {
    assert_eq!(jwt_secret_or_fallback(None), FALLBACK_JWT_SECRET);
    assert_eq!(
        FALLBACK_JWT_SECRET,
        "default_fallback_secret_key_string_matrix_987"
    );
    assert_eq!(jwt_secret_or_fallback(Some("s3".to_string())), "s3");
}

#[test]
fn onramp_checks_amount_and_asset() {
    let ok = OnRampPayload {
        amount_sign: AmountSign::Positive,
        asset: "usd".to_string(),
    };
    assert!(validate_onramp(&ok).is_ok());
    let zero = OnRampPayload {
        amount_sign: AmountSign::Zero,
        asset: "USD".to_string(),
    };
    let r = validate_onramp(&zero).unwrap_err();
    assert_eq!(
        (r.status, r.message.as_str()),
        (400, "Deposit allocation amount must be greater than zero")
    );
    let eur = OnRampPayload {
        amount_sign: AmountSign::Positive,
        asset: "EUR".to_string(),
    };
    let r = validate_onramp(&eur).unwrap_err();
    assert_eq!(
        (r.status, r.message.as_str()),
        (400, "Currently, only USD assets are supported for processing")
    );
}

#[test]
fn onramp_and_equity_replies() {
    let r = onramp_reply(Some(1), "250.5", "USD");
    assert_eq!((r.status, r.message.as_str()), (200, "Successfully deposited 250.5 USD"));
    let r = onramp_reply(Some(0), "1", "USD");
    assert_eq!(r.status, 404);
    let r = onramp_reply(None, "1", "USD");
    assert_eq!(r.status, 500);

    let b = equity_reply(USER, Some(Some(("10.5".to_string(), "2".to_string())))).unwrap();
    assert_eq!(b.user_id, USER);
    assert_eq!(b.available_balance, "10.5");
    assert_eq!(b.locked_balance, "2");
    assert_eq!(equity_reply(USER, Some(None)).unwrap_err().status, 404);
    assert_eq!(equity_reply(USER, None).unwrap_err().status, 500);
    assert_eq!(fills_reply().message, "Trade fills history");
}

#[test]
fn position_replies_name_the_market() {
    let path = positions::MarketPath {
        market_id: "SOL_PERP".to_string(),
    };
    let r = positions::open_positions_reply(&path);
    assert_eq!((r.status, r.message.as_str()), (200, "Open positions for market SOL_PERP"));
    let r = positions::closed_positions_reply(&path);
    assert_eq!(r.message, "Closed positions history for market SOL_PERP");
}

#[test]
fn signup_decisions() {
    assert!(check_not_registered(Some(false)).is_ok());
    assert!(check_not_registered(None).is_ok());
    let r = check_not_registered(Some(true)).unwrap_err();
    assert_eq!((r.status, r.message.as_str()), (400, "Username or Email already registered"));
    assert_eq!(pool_key(Some(Some("pk".to_string()))).unwrap(), "pk");
    assert_eq!(pool_key(Some(None)).unwrap_err().status, 503);
    assert_eq!(pool_key(None).unwrap_err().status, 500);
    let r = signup_write_failed(SignupWrite::Commit);
    assert_eq!((r.status, r.message.as_str()), (500, "Failed to lock atomic transaction changes"));
    let nodes = replica_nodes();
    assert_eq!(nodes[1], ("Node 2", "NODE_2_DB_URL"));
}

#[test]
fn signin_verifies_the_password_against_its_hash() {
    let hash = hash_new_password("hunter2").unwrap();
    assert!(hash.starts_with("$argon2"));
    let found = Some(Some((USER, "alice".to_string(), hash.clone())));
    assert_eq!(check_signin(found.clone(), "hunter2").unwrap(), (USER, "alice".to_string()));
    let r = check_signin(found, "hunter3").unwrap_err();
    assert_eq!((r.status, r.message.as_str()), (401, "Invalid password entry credentials"));
    let r = check_signin(Some(Some((USER, "alice".to_string(), "plain".to_string()))), "x")
        .unwrap_err();
    assert_eq!(r.status, 500);
    let r = check_signin(Some(None), "x").unwrap_err();
    assert_eq!((r.status, r.message.as_str()), (401, "Invalid identifier credentials provided"));
    assert_eq!(check_signin(None, "x").unwrap_err().status, 500);
}

#[test]
fn claims_expire_a_day_after_issue() {
    let c = issue_claims(USER, "alice".to_string(), 1_700_000_000);
    assert_eq!(c.sub, "22222222-2222-2222-2222-222222222222");
    assert_eq!(c.username, "alice");
    assert_eq!(c.exp, 1_700_086_400);
    let t = token_reply(Some("tok".to_string())).unwrap();
    assert_eq!((t.token.as_str(), t.token_type.as_str()), ("tok", "Bearer"));
    assert_eq!(token_reply(None).unwrap_err().status, 500);
}

#[test]
fn signin_token_names_the_user_for_a_day() {
    let hash = hash_new_password("hunter2").unwrap();
    let found = Some(Some((USER, "alice".to_string(), hash)));
    let reply = signin(found.clone(), "hunter2", "s3cret").unwrap();
    assert_eq!(reply.token_type, "Bearer");
    assert_eq!(reply.token.split('.').count(), 3);
    let header = AuthHeader::Text(format!("Bearer {}", reply.token));
    assert_eq!(extract_user_id(&header, "s3cret"), Ok(USER));
    assert_eq!(
        extract_user_id(&header, "other"),
        Err("Cryptographic token verification failed.")
    );
    let wrong = signin(found, "hunter3", "s3cret").unwrap_err();
    assert_eq!(wrong.status, 401);
    let c = claims_for(USER, "alice".to_string());
    assert!(c.exp > 1_700_086_400);
}

#[test]
fn extract_user_id_refusals() {
    assert_eq!(
        extract_user_id(&AuthHeader::Missing, "k"),
        Err("Missing Authorization Header")
    );
    assert_eq!(
        extract_user_id(&AuthHeader::Text("Token x".to_string()), "k"),
        Err("Authorization scheme must be bearer")
    );
    assert_eq!(
        extract_user_id(&AuthHeader::Text("Bearer not.a.jwt".to_string()), "k"),
        Err("Cryptographic token verification failed.")
    );
}

#[test]
fn signup_writes_run_in_order_and_abort_on_failure() {
    let order = [
        SignupWrite::Begin,
        SignupWrite::InsertUser,
        SignupWrite::AssignKey,
        SignupWrite::CreateCollateral,
        SignupWrite::Commit,
    ];
    for k in 0..4 {
        match signup_step(order[k], true) {
            SignupNext::Write(next) => assert_eq!(next, order[k + 1]),
            other => panic!("unexpected decision {:?}", other),
        }
    }
    assert!(matches!(signup_step(SignupWrite::Commit, true), SignupNext::Committed));
    match signup_step(SignupWrite::AssignKey, false) {
        SignupNext::Abort(r) => {
            assert_eq!((r.status, r.message.as_str()), (500, "Failed to allocate pool context mapping"))
        }
        other => panic!("unexpected decision {:?}", other),
    }
}
