//! The web server in front of the agent: its settings and the sign-in with
//! Google.

use vstd::prelude::*;
use crate::text::{
    copy_opt, decimal, law_decimal, law_numbers_are_read_back, opt_text, read_number, same, texts,
    unsigned_number,
};
use crate::provider::{copy_or, text_or};

verus! {

// ---------------------------------------------------------------------------
// Settings
// ---------------------------------------------------------------------------

/// The values of the environment variables; one that is not set is `None`.
#[derive(Debug, Clone, Default)]
pub struct SettingsEnv {
    /// `DATABASE_URL`
    pub database_url: Option<String>,
    /// `HOST`
    pub host: Option<String>,
    /// `PORT`
    pub port: Option<String>,
    /// `SESSION_SECRET_KEY`
    pub session_secret_key: Option<String>,
    /// `GOOGLE_CLIENT_ID`
    pub google_client_id: Option<String>,
    /// `GOOGLE_CLIENT_SECRET`
    pub google_client_secret: Option<String>,
    /// `GOOGLE_REDIRECT_URI`
    pub google_redirect_uri: Option<String>,
    /// `JWT_SECRET`
    pub jwt_secret: Option<String>,
}

/// The settings of the server.
#[derive(Debug, PartialEq, Eq)]
pub struct Settings {
    pub database_url: Option<String>,
    pub host: String,
    pub port: u16,
    pub session_secret_key: String,
    pub google_client_id: String,
    pub google_client_secret: String,
    pub google_redirect_uri: String,
    pub jwt_secret: String,
}

#[verifier::ext_equal]
pub struct SettingsView {
    pub database_url: Option<Seq<char>>,
    pub host: Seq<char>,
    pub port: u16,
    pub session_secret_key: Seq<char>,
    pub google_client_id: Seq<char>,
    pub google_client_secret: Seq<char>,
    pub google_redirect_uri: Seq<char>,
    pub jwt_secret: Seq<char>,
}

impl View for Settings {
    type V = SettingsView;

    open spec fn view(&self) -> SettingsView {
        SettingsView {
            database_url: opt_text(self.database_url),
            host: self.host@,
            port: self.port,
            session_secret_key: self.session_secret_key@,
            google_client_id: self.google_client_id@,
            google_client_secret: self.google_client_secret@,
            google_redirect_uri: self.google_redirect_uri@,
            jwt_secret: self.jwt_secret@,
        }
    }
}

/// The port in writing; what is no port is 8080.
pub open spec fn port_of(o: Option<Seq<char>>) -> u16 {
    match unsigned_number(text_or(o, "8080"@), u16::MAX as nat) {
        Some(n) => n as u16,
        None => 8080,
    }
}

impl SettingsEnv {
    /// The variables without a default are set.
    pub open spec fn complete(&self) -> bool {
        &&& self.session_secret_key is Some
        &&& self.google_client_id is Some
        &&& self.google_client_secret is Some
        &&& self.jwt_secret is Some
    }

    /// The first variable without a default that is not set.
    pub fn missing(&self) -> (r: Option<&'static str>)
        ensures
            r is None == self.complete(),
            r matches Some(name) ==> name@ == if self.session_secret_key is None {
                "SESSION_SECRET_KEY"@
            } else if self.google_client_id is None {
                "GOOGLE_CLIENT_ID"@
            } else if self.google_client_secret is None {
                "GOOGLE_CLIENT_SECRET"@
            } else {
                "JWT_SECRET"@
            },
    {
        if self.session_secret_key.is_none() {
            Some("SESSION_SECRET_KEY")
        } else if self.google_client_id.is_none() {
            Some("GOOGLE_CLIENT_ID")
        } else if self.google_client_secret.is_none() {
            Some("GOOGLE_CLIENT_SECRET")
        } else if self.jwt_secret.is_none() {
            Some("JWT_SECRET")
        } else {
            None
        }
    }
}

impl Settings {
    /// The settings of an environment that is complete.
    pub fn new(env: &SettingsEnv) -> (r: Self)
        requires
            env.complete(),
        ensures
            r@ == (SettingsView {
                database_url: opt_text(env.database_url),
                host: text_or(opt_text(env.host), "127.0.0.1"@),
                port: port_of(opt_text(env.port)),
                session_secret_key: env.session_secret_key->0@,
                google_client_id: env.google_client_id->0@,
                google_client_secret: env.google_client_secret->0@,
                google_redirect_uri: text_or(
                    opt_text(env.google_redirect_uri),
                    "http://localhost:8080/auth/google/callback"@,
                ),
                jwt_secret: env.jwt_secret->0@,
            }),
    {
        let port: u16 = match read_number(
            copy_or(&env.port, "8080").as_str(),
            u16::MAX as u64,
        ) {
            Some(n) => n as u16,
            None => 8080,
        };
        Settings {
            database_url: copy_opt(&env.database_url),
            host: copy_or(&env.host, "127.0.0.1"),
            port,
            session_secret_key: copy_or(&env.session_secret_key, ""),
            google_client_id: copy_or(&env.google_client_id, ""),
            google_client_secret: copy_or(&env.google_client_secret, ""),
            google_redirect_uri: copy_or(
                &env.google_redirect_uri,
                "http://localhost:8080/auth/google/callback",
            ),
            jwt_secret: copy_or(&env.jwt_secret, ""),
        }
    }
}

/// The address to listen on, as it is written in the environment.
pub fn bind_address(host: &Option<String>, port: &Option<String>) -> (r: String)
    ensures
        r@ == text_or(opt_text(*host), "127.0.0.1"@) + ":"@ + text_or(opt_text(*port), "8080"@),
{
    let mut s = copy_or(host, "127.0.0.1");
    s.append(":");
    s.append(copy_or(port, "8080").as_str());
    s
}

// ---------------------------------------------------------------------------
// The session key
// ---------------------------------------------------------------------------

/// The character for six bits.
pub open spec fn base64_char(v: int) -> char {
    if v < 26 {
        (65 + v) as char
    } else if v < 52 {
        (97 + v - 26) as char
    } else if v < 62 {
        (48 + v - 52) as char
    } else if v == 62 {
        '+'
    } else {
        '/'
    }
}

/// A byte of the input; zero behind its end.
pub open spec fn byte_or_zero(bytes: Seq<u8>, i: int) -> int {
    if i < bytes.len() {
        bytes[i] as int
    } else {
        0
    }
}

/// The six bits behind character `k` of the text.
pub open spec fn six_bits(bytes: Seq<u8>, k: int) -> int {
    let i = k / 4 * 3;
    let group = byte_or_zero(bytes, i) * 65536 + byte_or_zero(bytes, i + 1) * 256 + byte_or_zero(
        bytes,
        i + 2,
    );
    let shift: int = if k % 4 == 0 {
        262144
    } else if k % 4 == 1 {
        4096
    } else if k % 4 == 2 {
        64
    } else {
        1
    };
    group / shift % 64
}

/// Base64 with the standard alphabet and padding: four characters for every
/// three bytes.
pub open spec fn base64_text(bytes: Seq<u8>) -> Seq<char> {
    Seq::new(
        ((bytes.len() + 2) / 3 * 4) as nat,
        |k: int|
            if (k % 4 == 2 && k / 4 * 3 + 1 >= bytes.len()) || (k % 4 == 3 && k / 4 * 3 + 2
                >= bytes.len()) {
                '='
            } else {
                base64_char(six_bits(bytes, k))
            },
    )
}

/// `base64::encode`: the bytes in Base64, with the standard alphabet and
/// padding.
#[verifier::external_body]
#[allow(deprecated)]
fn encode_base64(bytes: &[u8]) -> (r: String)
    requires
        bytes@.len() <= 0x10000000,
    ensures
        r@ == base64_text(bytes@),
{
    base64::encode(bytes)
}

/// The key that protects sessions: the one that is set, or random bytes in
/// Base64.
pub fn session_key(set: &Option<String>, random: &[u8]) -> (r: String)
    requires
        random@.len() == 32,
    ensures
        r@ == text_or(opt_text(*set), base64_text(random@)),
{
    match set {
        Some(k) => k.clone(),
        None => encode_base64(random),
    }
}

// ---------------------------------------------------------------------------
// Signing in
// ---------------------------------------------------------------------------

/// The address at which Google asks the user, for a client, the place to come
/// back to, the permissions asked for and the state that has to come back;
/// `None` if one of the two addresses is none.
pub uninterp spec fn consent_address(
    client_id: Seq<char>,
    auth_url: Seq<char>,
    redirect_uri: Seq<char>,
    scopes: Seq<Seq<char>>,
    state: Seq<char>,
) -> Option<Seq<char>>;

/// `oauth2::basic::BasicClient::authorize_url` with `add_scopes` and `url`: the
/// address depends on these values alone. How it is put together and which
/// texts are addresses is not stated.
#[verifier::external_body]
fn consent_url(
    client_id: &str,
    auth_url: &str,
    redirect_uri: &str,
    scopes: &Vec<String>,
    state: &str,
) -> (r: Option<String>)
    ensures
        opt_text(r) == consent_address(
            client_id@,
            auth_url@,
            redirect_uri@,
            texts(scopes@),
            state@,
        ),
{
    let id = oauth2::ClientId::new(client_id.to_string());
    let auth = oauth2::AuthUrl::new(auth_url.to_string()).ok()?;
    let back = oauth2::RedirectUrl::new(redirect_uri.to_string()).ok()?;
    let client = oauth2::basic::BasicClient::new(id, None, auth, None).set_redirect_uri(back);
    let token = oauth2::CsrfToken::new(state.to_string());
    let asked = client.authorize_url(|| token).add_scopes(
        scopes.iter().cloned().map(oauth2::Scope::new),
    );
    Some(asked.url().0.to_string())
}

/// A character of URL-safe Base64.
pub open spec fn is_token_char(c: char) -> bool {
    ||| 'A' <= c && c <= 'Z'
    ||| 'a' <= c && c <= 'z'
    ||| '0' <= c && c <= '9'
    ||| c == '-'
    ||| c == '_'
}

/// A token of 16 bytes in URL-safe Base64 without padding.
pub open spec fn is_token(s: Seq<char>) -> bool {
    s.len() == 22 && forall|i: int| 0 <= i < s.len() ==> is_token_char(#[trigger] s[i])
}

/// `oauth2::CsrfToken::new_random`: sixteen random bytes in URL-safe Base64.
/// Which ones is left open.
#[verifier::external_body]
fn random_state() -> (r: String)
    ensures
        is_token(r@),
{
    oauth2::CsrfToken::new_random().secret().to_string()
}

/// The permissions that are asked for.
pub open spec fn scopes_asked() -> Seq<Seq<char>> {
    seq![
        "https://www.googleapis.com/auth/userinfo.email"@,
        "https://www.googleapis.com/auth/userinfo.profile"@,
    ]
}

/// The sign-in with Google.
#[derive(Debug, PartialEq, Eq)]
pub struct GoogleAuth {
    pub client_id: String,
    pub client_secret: String,
    pub redirect_uri: String,
}

impl GoogleAuth {
    pub fn new(settings: &Settings) -> (r: Self)
        ensures
            r.client_id@ == settings@.google_client_id,
            r.client_secret@ == settings@.google_client_secret,
            r.redirect_uri@ == settings@.google_redirect_uri,
    {
        GoogleAuth {
            client_id: settings.google_client_id.clone(),
            client_secret: settings.google_client_secret.clone(),
            redirect_uri: settings.google_redirect_uri.clone(),
        }
    }

    /// The address at which the user is asked, for a given state.
    pub open spec fn consent(&self, state: Seq<char>) -> Option<Seq<char>> {
        consent_address(
            self.client_id@,
            "https://accounts.google.com/o/oauth2/auth"@,
            self.redirect_uri@,
            scopes_asked(),
            state,
        )
    }

    /// The address at which the user is asked, with the given state; `None` if
    /// the place to come back to is no address.
    pub fn authorize_url_with(&self, state: &str) -> (r: Option<String>)
        ensures
            opt_text(r) == self.consent(state@),
    {
        let scopes: Vec<String> = vec![
            "https://www.googleapis.com/auth/userinfo.email".to_string(),
            "https://www.googleapis.com/auth/userinfo.profile".to_string(),
        ];
        assert(texts(scopes@) =~= scopes_asked());
        consent_url(
            self.client_id.as_str(),
            "https://accounts.google.com/o/oauth2/auth",
            self.redirect_uri.as_str(),
            &scopes,
            state,
        )
    }

    /// The address at which the user is asked, and the random state that has to
    /// come back.
    pub fn authorize_url(&self) -> (r: (Option<String>, String))
        ensures
            is_token(r.1@),
            opt_text(r.0) == self.consent(r.1@),
    {
        let state = random_state();
        let url = self.authorize_url_with(state.as_str());
        (url, state)
    }
}

/// What Google sends back.
#[derive(Debug, PartialEq, Eq)]
pub struct GoogleCallback {
    pub code: Option<String>,
    pub state: Option<String>,
}

/// The answer to a request.
#[derive(Debug, Clone, Copy, PartialEq, Eq)]
pub enum Answer {
    /// Status 400, with the reason.
    BadRequest(&'static str),
    /// Status 500, with the reason.
    ServerError(&'static str),
    /// Status 302, to this place.
    Redirect(&'static str),
}

/// Whether the answer says this, with this kind.
pub open spec fn is_bad_request(a: Answer, reason: Seq<char>) -> bool {
    a matches Answer::BadRequest(s) && s@ == reason
}

impl GoogleCallback {
    /// Check that a callback belongs to the session: its state has to be the
    /// one that was stored.
    pub fn check_session(&self, stored: &Option<String>) -> (r: Result<(), Answer>)
        ensures
            r is Ok <==> self.state is Some && opt_text(self.state) == opt_text(*stored),
            match r {
                Ok(()) => true,
                Err(a) => if self.state is None {
                    is_bad_request(a, "Missing state parameter"@)
                } else if *stored is None {
                    is_bad_request(a, "CSRF token not found in session"@)
                } else {
                    is_bad_request(a, "Invalid state parameter"@)
                },
            },
    {
        match &self.state {
            None => Err(Answer::BadRequest("Missing state parameter")),
            Some(state) => match stored {
                None => Err(Answer::BadRequest("CSRF token not found in session")),
                Some(known) => if same(state.as_str(), known.as_str()) {
                    Ok(())
                } else {
                    Err(Answer::BadRequest("Invalid state parameter"))
                },
            },
        }
    }

    /// The parameters of a callback: both have to be there.
    pub fn parameters(&self) -> (r: Result<(String, String), Answer>)
        ensures
            match r {
                Ok((code, state)) => opt_text(self.code) == Some(code@) && opt_text(self.state)
                    == Some(state@),
                Err(a) => if self.code is None {
                    is_bad_request(a, "Missing code parameter"@)
                } else {
                    self.state is None && is_bad_request(a, "Missing state parameter"@)
                },
            },
    {
        match &self.code {
            None => Err(Answer::BadRequest("Missing code parameter")),
            Some(code) => match &self.state {
                None => Err(Answer::BadRequest("Missing state parameter")),
                Some(state) => Ok((code.clone(), state.clone())),
            },
        }
    }
}

/// Check the state of a callback against the token of the session; a session
/// without a token has no valid state.
pub fn check_state(stored: &Option<String>, state: &str) -> (r: Result<(), Answer>)
    ensures
        r is Ok <==> opt_text(*stored) == Some(state@),
        r matches Err(a) ==> is_bad_request(a, "Invalid state parameter"@),
{
    match stored {
        Some(known) => if same(known.as_str(), state) {
            Ok(())
        } else {
            Err(Answer::BadRequest("Invalid state parameter"))
        },
        None => Err(Answer::BadRequest("Invalid state parameter")),
    }
}

/// How the exchange of a code for a user went.
#[derive(Debug, Clone, Copy, PartialEq, Eq, Structural)]
pub enum Exchange {
    /// The code was not accepted.
    NoToken,
    /// The code was accepted, but the user is not known.
    NoUser,
    /// The user is known.
    User,
}

/// The answer after an exchange that tells the failures apart.
pub fn after_exchange(e: Exchange) -> (r: Answer)
    ensures
        match e {
            Exchange::NoToken => is_bad_request(r, "Failed to exchange code for token"@),
            Exchange::NoUser => r matches Answer::ServerError(s) && s@
                == "Failed to get user info"@,
            Exchange::User => r matches Answer::Redirect(s) && s@ == "/"@,
        },
{
    match e {
        Exchange::NoToken => Answer::BadRequest("Failed to exchange code for token"),
        Exchange::NoUser => Answer::ServerError("Failed to get user info"),
        Exchange::User => Answer::Redirect("/"),
    }
}

/// The answer after an exchange that does not.
pub fn after_login(e: Exchange) -> (r: Answer)
    ensures
        match e {
            Exchange::User => r matches Answer::Redirect(s) && s@ == "/"@,
            _ => r matches Answer::ServerError(s) && s@ == "Authentication failed"@,
        },
{
    match e {
        Exchange::User => Answer::Redirect("/"),
        _ => Answer::ServerError("Authentication failed"),
    }
}

// ---------------------------------------------------------------------------
// Laws
// ---------------------------------------------------------------------------

/// The port is the one that is written, if it is one, and 8080 otherwise.
pub proof fn law_port(s: Seq<char>, n: nat)
    ensures
        n <= 65535 ==> port_of(Some(decimal(n))) == n,
        n > 65535 ==> port_of(Some(decimal(n))) == 8080,
        unsigned_number(s, 65535) is None ==> port_of(Some(s)) == 8080,
        port_of(None) == 8080,
{
    law_numbers_are_read_back(n, 65535);
    law_numbers_are_read_back(8080, 65535);
    reveal_strlit("8080");
    law_decimal(0, 8);
    law_decimal(8, 0);
    law_decimal(80, 8);
    law_decimal(808, 0);
    law_decimal(0, 0);
    assert("8080"@ =~= decimal(8080));
}

/// What is asked of Google: the address of the user and the profile, from its
/// own place, for the client and the place to come back to.
pub proof fn law_consent(auth: GoogleAuth, state: Seq<char>)
    ensures
        auth.consent(state) == consent_address(
            auth.client_id@,
            "https://accounts.google.com/o/oauth2/auth"@,
            auth.redirect_uri@,
            seq![
                "https://www.googleapis.com/auth/userinfo.email"@,
                "https://www.googleapis.com/auth/userinfo.profile"@,
            ],
            state,
        ),
{
}

/// The settings are complete exactly if the four secrets are set.
pub proof fn law_complete(env: SettingsEnv)
    ensures
        env.complete() <==> env.session_secret_key is Some && env.google_client_id is Some
            && env.google_client_secret is Some && env.jwt_secret is Some,
{
}

/// What is seen of the settings is what they hold. Two answers to a bad request
/// are told apart by their reasons, and no other answer counts as one.
pub proof fn law_settings_view(s: Settings, reason: &'static str, other: Seq<char>)
    ensures
        s@.database_url == opt_text(s.database_url),
        s@.host == s.host@,
        s@.port == s.port,
        s@.session_secret_key == s.session_secret_key@,
        s@.google_client_id == s.google_client_id@,
        s@.google_client_secret == s.google_client_secret@,
        s@.google_redirect_uri == s.google_redirect_uri@,
        s@.jwt_secret == s.jwt_secret@,
        is_bad_request(Answer::BadRequest(reason), other) <==> reason@ == other,
        !is_bad_request(Answer::ServerError(reason), other),
        !is_bad_request(Answer::Redirect(reason), other),
{
}

/// The alphabet of Base64: the capital letters, the small letters, the digits,
/// the plus sign and the slash, in this order.
pub proof fn law_alphabet(v: int)
    requires
        0 <= v < 64,
    ensures
        v < 26 ==> base64_char(v) as int == 'A' as int + v,
        26 <= v < 52 ==> base64_char(v) as int == 'a' as int + (v - 26),
        52 <= v < 62 ==> base64_char(v) as int == '0' as int + (v - 52),
        v == 62 ==> base64_char(v) == '+',
        v == 63 ==> base64_char(v) == '/',
{
}

proof fn lemma_digits(n: int, a: int, b: int, c: int, d: int)
    requires
        0 <= a < 64,
        0 <= b < 64,
        0 <= c < 64,
        0 <= d < 64,
        n == a * 262144 + b * 4096 + c * 64 + d,
    ensures
        n / 262144 % 64 == a,
        n / 4096 % 64 == b,
        n / 64 % 64 == c,
        n / 1 % 64 == d,
{
    assert(n / 262144 == a);
    assert(n / 4096 == a * 64 + b);
    assert(n / 64 == (a * 64 + b) * 64 + c);
}

proof fn lemma_group(bytes: Seq<u8>, g: int, a: int, b: int, c: int, d: int)
    requires
        0 <= g,
        0 <= a < 64,
        0 <= b < 64,
        0 <= c < 64,
        0 <= d < 64,
        byte_or_zero(bytes, 3 * g) * 65536 + byte_or_zero(bytes, 3 * g + 1) * 256 + byte_or_zero(
            bytes,
            3 * g + 2,
        ) == a * 262144 + b * 4096 + c * 64 + d,
    ensures
        six_bits(bytes, 4 * g) == a,
        six_bits(bytes, 4 * g + 1) == b,
        six_bits(bytes, 4 * g + 2) == c,
        six_bits(bytes, 4 * g + 3) == d,
{
    let k = 4 * g;
    assert(k / 4 == g && (k + 1) / 4 == g && (k + 2) / 4 == g && (k + 3) / 4 == g);
    assert(k % 4 == 0 && (k + 1) % 4 == 1 && (k + 2) % 4 == 2 && (k + 3) % 4 == 3);
    assert(g * 3 == 3 * g);
    let n = byte_or_zero(bytes, 3 * g) * 65536 + byte_or_zero(bytes, 3 * g + 1) * 256
        + byte_or_zero(bytes, 3 * g + 2);
    lemma_digits(n, a, b, c, d);
}

/// Three bytes become four characters that stand for the same 24 bits. At the
/// end two bytes become three characters and one sign of padding, and one byte
/// becomes two characters and two signs.
pub proof fn law_base64(
    front: Seq<u8>,
    g: int,
    x: u8,
    y: u8,
    z: u8,
    back: Seq<u8>,
    a: int,
    b: int,
    c: int,
    d: int,
)
    requires
        front.len() == 3 * g,
        0 <= a < 64,
        0 <= b < 64,
        0 <= c < 64,
        0 <= d < 64,
        x * 65536 + y * 256 + z == a * 262144 + b * 4096 + c * 64 + d,
    ensures
        base64_text(Seq::empty()).len() == 0,
        ({
            let text = base64_text(front + seq![x, y, z] + back);
            &&& text.len() >= 4 * g + 4
            &&& text[4 * g] == base64_char(a)
            &&& text[4 * g + 1] == base64_char(b)
            &&& text[4 * g + 2] == base64_char(c)
            &&& text[4 * g + 3] == base64_char(d)
        }),
        back.len() == 0 ==> base64_text(front + seq![x, y, z] + back).len() == 4 * g + 4,
        z == 0 ==> {
            let text = base64_text(front + seq![x, y]);
            &&& text.len() == 4 * g + 4
            &&& text[4 * g] == base64_char(a)
            &&& text[4 * g + 1] == base64_char(b)
            &&& text[4 * g + 2] == base64_char(c)
            &&& text[4 * g + 3] == '='
        },
        y == 0 && z == 0 ==> {
            let text = base64_text(front + seq![x]);
            &&& text.len() == 4 * g + 4
            &&& text[4 * g] == base64_char(a)
            &&& text[4 * g + 1] == base64_char(b)
            &&& text[4 * g + 2] == '='
            &&& text[4 * g + 3] == '='
        },
{
    let all = front + seq![x, y, z] + back;
    assert(all[3 * g] == x && all[3 * g + 1] == y && all[3 * g + 2] == z);
    lemma_group(all, g, a, b, c, d);
    if z == 0 {
        let two = front + seq![x, y];
        assert(two[3 * g] == x && two[3 * g + 1] == y);
        lemma_group(two, g, a, b, c, d);
    }
    if y == 0 && z == 0 {
        let one = front + seq![x];
        assert(one[3 * g] == x);
        lemma_group(one, g, a, b, c, d);
    }
}

/// A token has 22 characters, each a letter, a digit, a hyphen or an underscore.
pub proof fn law_token(s: Seq<char>, i: int)
    requires
        0 <= i < s.len(),
    ensures
        is_token(s) ==> s.len() == 22,
        is_token(s) ==> ('A' <= s[i] <= 'Z' || 'a' <= s[i] <= 'z' || '0' <= s[i] <= '9' || s[i]
            == '-' || s[i] == '_'),
{
}

} // verus!
