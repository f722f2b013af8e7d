use ai_agent::backend::{
    after_exchange, after_login, bind_address, check_state, session_key, Answer, Exchange,
    GoogleAuth, GoogleCallback, Settings, SettingsEnv,
};

fn complete() -> SettingsEnv {
    SettingsEnv {
        session_secret_key: Some("s".into()),
        google_client_id: Some("client".into()),
        google_client_secret: Some("secret".into()),
        jwt_secret: Some("j".into()),
        ..SettingsEnv::default()
    }
}

#[test]
fn settings_have_defaults() {
    let s = Settings::new(&complete());
    assert_eq!(s.database_url, None);
    assert_eq!(s.host, "127.0.0.1");
    assert_eq!(s.port, 8080);
    assert_eq!(s.session_secret_key, "s");
    assert_eq!(s.google_redirect_uri, "http://localhost:8080/auth/google/callback");
    assert_eq!(s.jwt_secret, "j");
}

#[test]
fn settings_of_the_environment() {
    let env = SettingsEnv {
        database_url: Some("db".into()),
        host: Some("h".into()),
        port: Some("65535".into()),
        google_redirect_uri: Some("r".into()),
        ..complete()
    };
    let s = Settings::new(&env);
    assert_eq!(s.database_url.as_deref(), Some("db"));
    assert_eq!((s.host.as_str(), s.port), ("h", 65535));
    assert_eq!(s.google_redirect_uri, "r");
    for bad in ["65536", "x", "", "-1"] {
        let env = SettingsEnv { port: Some(bad.into()), ..complete() };
        assert_eq!(Settings::new(&env).port, 8080);
    }
}

#[test]
fn missing_variables_are_named() {
    assert_eq!(complete().missing(), None);
    assert_eq!(SettingsEnv::default().missing(), Some("SESSION_SECRET_KEY"));
    assert_eq!(
        SettingsEnv { google_client_id: None, ..complete() }.missing(),
        Some("GOOGLE_CLIENT_ID")
    );
    assert_eq!(
        SettingsEnv { google_client_secret: None, ..complete() }.missing(),
        Some("GOOGLE_CLIENT_SECRET")
    );
    assert_eq!(SettingsEnv { jwt_secret: None, ..complete() }.missing(), Some("JWT_SECRET"));
}

#[test]
fn the_address_to_listen_on() {
    assert_eq!(bind_address(&None, &None), "127.0.0.1:8080");
    assert_eq!(bind_address(&Some("0.0.0.0".into()), &Some("abc".into())), "0.0.0.0:abc");
}

#[test]
fn a_random_key_is_written_in_base64() {
    let mut bytes = [0u8; 32];
    for (i, b) in bytes.iter_mut().enumerate() {
        *b = (i * 8 + 5) as u8;
    }
    assert_eq!(session_key(&None, &bytes), "BQ0VHSUtNT1FTVVdZW11fYWNlZ2lrbW9xc3V3eXt9f0=");
    assert_eq!(session_key(&None, &[0xff; 32]), format!("{}8=", "/".repeat(42)));
    assert_eq!(session_key(&Some("set".into()), &bytes), "set");
}

fn auth() -> GoogleAuth {
    GoogleAuth::new(&Settings::new(&complete()))
}

#[test]
fn the_user_is_sent_to_google() {
    let url = auth().authorize_url_with("st ate").unwrap();
    assert!(url.starts_with("https://accounts.google.com/o/oauth2/auth?response_type=code"));
    assert!(url.contains("client_id=client"));
    assert!(url.contains("state=st+ate"));
    assert!(url.contains("redirect_uri=http%3A%2F%2Flocalhost%3A8080%2Fauth%2Fgoogle%2Fcallback"));
    assert!(url.contains(
        "scope=https%3A%2F%2Fwww.googleapis.com%2Fauth%2Fuserinfo.email+https%3A%2F%2Fwww.googleapis.com%2Fauth%2Fuserinfo.profile"
    ));
    assert_eq!(auth().authorize_url_with("st ate").unwrap(), url);
}

#[test]
fn a_place_that_is_no_address_gives_none() {
    let env = SettingsEnv { google_redirect_uri: Some("nowhere".into()), ..complete() };
    let auth = GoogleAuth::new(&Settings::new(&env));
    assert_eq!(auth.authorize_url_with("s"), None);
    assert_eq!(auth.client_secret, "secret");
}

#[test]
fn the_state_is_random() {
    let (url, state) = auth().authorize_url();
    assert_eq!(state.len(), 22);
    assert!(state.chars().all(|c| c.is_ascii_alphanumeric() || c == '-' || c == '_'));
    assert_eq!(url, auth().authorize_url_with(&state));
    assert_ne!(auth().authorize_url().1, state);
}

fn callback(code: Option<&str>, state: Option<&str>) -> GoogleCallback {
    GoogleCallback { code: code.map(|s| s.to_string()), state: state.map(|s| s.to_string()) }
}

#[test]
fn a_callback_has_to_belong_to_the_session() {
    let stored = Some("s".to_string());
    assert_eq!(callback(None, Some("s")).check_session(&stored), Ok(()));
    assert_eq!(
        callback(None, None).check_session(&stored),
        Err(Answer::BadRequest("Missing state parameter"))
    );
    assert_eq!(
        callback(None, Some("s")).check_session(&None),
        Err(Answer::BadRequest("CSRF token not found in session"))
    );
    assert_eq!(
        callback(None, Some("t")).check_session(&stored),
        Err(Answer::BadRequest("Invalid state parameter"))
    );
    assert_eq!(check_state(&stored, "s"), Ok(()));
    assert_eq!(check_state(&stored, "t"), Err(Answer::BadRequest("Invalid state parameter")));
    assert_eq!(check_state(&None, ""), Err(Answer::BadRequest("Invalid state parameter")));
}

#[test]
fn a_callback_needs_both_parameters() {
    assert_eq!(
        callback(Some("c"), Some("s")).parameters(),
        Ok(("c".to_string(), "s".to_string()))
    );
    assert_eq!(
        callback(None, None).parameters(),
        Err(Answer::BadRequest("Missing code parameter"))
    );
    assert_eq!(
        callback(Some("c"), None).parameters(),
        Err(Answer::BadRequest("Missing state parameter"))
    );
}

#[test]
fn answers_after_the_exchange() {
    assert_eq!(
        after_exchange(Exchange::NoToken),
        Answer::BadRequest("Failed to exchange code for token")
    );
    assert_eq!(after_exchange(Exchange::NoUser), Answer::ServerError("Failed to get user info"));
    assert_eq!(after_exchange(Exchange::User), Answer::Redirect("/"));
    assert_eq!(after_login(Exchange::User), Answer::Redirect("/"));
    assert_eq!(after_login(Exchange::NoToken), Answer::ServerError("Authentication failed"));
    assert_eq!(after_login(Exchange::NoUser), Answer::ServerError("Authentication failed"));
}
