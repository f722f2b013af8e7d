//! Model providers: which endpoint is asked, in what order, and what an answer
//! means.

use vstd::prelude::*;
use std::sync::atomic::AtomicUsize;
use std::sync::Arc;
use crate::text::{
    copy_opt, decimal, drop_back, opt_text, same, show, show_usize, split, split_on,
    starts_with, begins_with, strip, strip_class, texts, trim, trim_back, trimmed, CharClass,
    IntoText, chars_of, text_range,
};

verus! {

// ---------------------------------------------------------------------------
// Errors
// ---------------------------------------------------------------------------

/// Why a provider gave no answer.
#[derive(Debug, PartialEq, Eq)]
pub enum ProviderError {
    /// The request did not get through; with the report of the HTTP client.
    Network(String),
    /// The answer could not be read; with the report of the parser.
    Serialization(String),
    /// No chunk came in time; with the time that was allowed.
    ChunkTimeout(String),
    /// The provider refused.
    ApiError { status: u16, body: String },
    /// Anything else.
    Execution(String),
}

pub enum ProviderErrorView {
    Network(Seq<char>),
    Serialization(Seq<char>),
    ChunkTimeout(Seq<char>),
    ApiError { status: u16, body: Seq<char> },
    Execution(Seq<char>),
}

impl View for ProviderError {
    type V = ProviderErrorView;

    open spec fn view(&self) -> ProviderErrorView {
        match *self {
            ProviderError::Network(e) => ProviderErrorView::Network(e@),
            ProviderError::Serialization(e) => ProviderErrorView::Serialization(e@),
            ProviderError::ChunkTimeout(d) => ProviderErrorView::ChunkTimeout(d@),
            ProviderError::ApiError { status, body } => ProviderErrorView::ApiError {
                status,
                body: body@,
            },
            ProviderError::Execution(e) => ProviderErrorView::Execution(e@),
        }
    }
}

impl Clone for ProviderError {
    fn clone(&self) -> (r: Self)
        ensures
            r@ == self@,
    {
        match self {
            ProviderError::Network(e) => ProviderError::Network(e.clone()),
            ProviderError::Serialization(e) => ProviderError::Serialization(e.clone()),
            ProviderError::ChunkTimeout(d) => ProviderError::ChunkTimeout(d.clone()),
            ProviderError::ApiError { status, body } => ProviderError::ApiError {
                status: *status,
                body: body.clone(),
            },
            ProviderError::Execution(e) => ProviderError::Execution(e.clone()),
        }
    }
}

impl ProviderErrorView {
    /// The error in words.
    pub open spec fn in_words(self) -> Seq<char> {
        match self {
            ProviderErrorView::Network(e) => "Network error: "@ + e,
            ProviderErrorView::Serialization(e) => "Serialization error: "@ + e,
            ProviderErrorView::ChunkTimeout(d) => "Chunk timeout exceeded ("@ + d + ")"@,
            ProviderErrorView::ApiError { status, body } => "API Error (Status "@ + decimal(
                status as nat,
            ) + "): "@ + body,
            ProviderErrorView::Execution(e) => "Execution error: "@ + e,
        }
    }
}

impl ProviderError {
    /// The error in words.
    pub fn text(&self) -> (r: String)
        ensures
            r@ == self@.in_words(),
    {
        match self {
            ProviderError::Network(e) => "Network error: ".to_string().concat(e.as_str()),
            ProviderError::Serialization(e) => "Serialization error: ".to_string().concat(
                e.as_str(),
            ),
            ProviderError::ChunkTimeout(d) => {
                let mut s = "Chunk timeout exceeded (".to_string();
                s.append(d.as_str());
                s.append(")");
                s
            },
            ProviderError::ApiError { status, body } => {
                let mut s = "API Error (Status ".to_string();
                s.append(show(*status as u128).as_str());
                s.append("): ");
                s.append(body.as_str());
                s
            },
            ProviderError::Execution(e) => "Execution error: ".to_string().concat(e.as_str()),
        }
    }
}

// ---------------------------------------------------------------------------
// Configuration of one provider
// ---------------------------------------------------------------------------

/// The format of requests and answers.
#[derive(Debug, Clone, Copy, PartialEq, Eq, Structural)]
pub enum ProviderKind {
    /// OpenAI-compatible `/v1/chat/completions`, answers in `data:` lines.
    OpenAI,
    /// Ollama's own `/api/chat`, answers in plain JSON lines.
    OllamaChat,
}

impl Default for ProviderKind {
    fn default() -> (r: Self)
        ensures
            r == ProviderKind::OpenAI,
    {
        ProviderKind::OpenAI
    }
}

/// One provider of a pool.
#[derive(Debug, PartialEq, Eq)]
pub struct ProviderConfig {
    /// Human-readable name.
    pub name: String,
    /// Base URL of the API.
    pub base_url: String,
    /// The model that is asked for.
    pub model_name: String,
    /// Bearer key, if one is needed.
    pub api_key: Option<String>,
    /// Whether the provider serves `/api/embeddings`.
    pub supports_embeddings: bool,
    /// The format it speaks.
    pub kind: ProviderKind,
}

#[verifier::ext_equal]
pub struct ProviderConfigView {
    pub name: Seq<char>,
    pub base_url: Seq<char>,
    pub model_name: Seq<char>,
    pub api_key: Option<Seq<char>>,
    pub supports_embeddings: bool,
    pub kind: ProviderKind,
}

impl View for ProviderConfig {
    type V = ProviderConfigView;

    open spec fn view(&self) -> ProviderConfigView {
        ProviderConfigView {
            name: self.name@,
            base_url: self.base_url@,
            model_name: self.model_name@,
            api_key: opt_text(self.api_key),
            supports_embeddings: self.supports_embeddings,
            kind: self.kind,
        }
    }
}

impl Clone for ProviderConfig {
    fn clone(&self) -> (r: Self)
        ensures
            r@ == self@,
    {
        ProviderConfig {
            name: self.name.clone(),
            base_url: self.base_url.clone(),
            model_name: self.model_name.clone(),
            api_key: copy_opt(&self.api_key),
            supports_embeddings: self.supports_embeddings,
            kind: self.kind,
        }
    }
}

pub open spec fn config_views(v: Seq<ProviderConfig>) -> Seq<ProviderConfigView> {
    v.map_values(|c: ProviderConfig| c@)
}

// ---------------------------------------------------------------------------
// The pool from the environment
// ---------------------------------------------------------------------------

/// The values of the environment variables that shape the provider pool; a
/// variable that is not set is `None`.
#[derive(Debug, Clone, Default)]
pub struct ProviderEnv {
    /// `AI_AGENT_MODEL`
    pub model: Option<String>,
    /// `OLLAMA_API_KEY`
    pub ollama_api_key: Option<String>,
    /// `AGENT_PROVIDER_POOL`
    pub pool: Option<String>,
    /// `OPENROUTER_API_KEY`
    pub openrouter_api_key: Option<String>,
    /// `OPENROUTER_MODEL`
    pub openrouter_model: Option<String>,
    /// `OLLAMA_CLOUD_API_KEY`
    pub cloud_api_key: Option<String>,
    /// `OLLAMA_CLOUD_BASE_URL`
    pub cloud_base_url: Option<String>,
    /// `OLLAMA_BASE_URL`
    pub ollama_base_url: Option<String>,
    /// `AI_AGENT_EMBEDDING_MODEL`
    pub embedding_model: Option<String>,
}

/// The value of an optional text, or a default.
pub open spec fn text_or(o: Option<Seq<char>>, default: Seq<char>) -> Seq<char> {
    match o {
        Some(s) => s,
        None => default,
    }
}

pub fn copy_or(o: &Option<String>, default: &str) -> (r: String)
    ensures
        r@ == text_or(opt_text(*o), default@),
{
    match o {
        Some(s) => s.clone(),
        None => default.to_string(),
    }
}

/// The endpoints among the pieces of a list: each without surrounding blanks,
/// brackets and quotes, and only those that are not empty then.
pub open spec fn endpoints_among(pieces: Seq<Seq<char>>) -> Seq<Seq<char>>
    decreases pieces.len(),
{
    if pieces.len() == 0 {
        Seq::empty()
    } else {
        let before = endpoints_among(pieces.drop_last());
        let e = strip(trimmed(pieces.last()), CharClass::Quote);
        if e.len() == 0 {
            before
        } else {
            before.push(e)
        }
    }
}

/// The endpoints of a comma-separated list.
pub open spec fn endpoints_of(list: Seq<char>) -> Seq<Seq<char>> {
    endpoints_among(split(trimmed(list), ','))
}

/// The provider for the endpoint at a place of the pool list.
pub open spec fn pool_entry(
    i: int,
    endpoint: Seq<char>,
    model: Seq<char>,
    key: Option<Seq<char>>,
) -> ProviderConfigView {
    ProviderConfigView {
        name: "pool-"@ + decimal(i as nat),
        base_url: endpoint,
        model_name: model,
        api_key: key,
        supports_embeddings: true,
        kind: ProviderKind::OpenAI,
    }
}

/// The providers for a pool list.
pub open spec fn pool_entries(
    endpoints: Seq<Seq<char>>,
    model: Seq<char>,
    key: Option<Seq<char>>,
) -> Seq<ProviderConfigView> {
    Seq::new(endpoints.len(), |i: int| pool_entry(i, endpoints[i], model, key))
}

pub open spec fn openrouter_entry(key: Seq<char>, model: Option<Seq<char>>) -> ProviderConfigView {
    ProviderConfigView {
        name: "openrouter"@,
        base_url: "https://openrouter.ai/api/v1"@,
        model_name: text_or(model, "qwen/qwen-2.5-coder-32b-instruct:free"@),
        api_key: Some(key),
        supports_embeddings: false,
        kind: ProviderKind::OpenAI,
    }
}

pub open spec fn cloud_entry(
    key: Seq<char>,
    model: Option<Seq<char>>,
    base_url: Option<Seq<char>>,
) -> ProviderConfigView {
    ProviderConfigView {
        name: "ollama-cloud"@,
        base_url: text_or(base_url, "https://ollama.com"@),
        model_name: text_or(model, "nemotron-3-super:cloud"@),
        api_key: Some(key),
        supports_embeddings: false,
        kind: ProviderKind::OllamaChat,
    }
}

pub open spec fn local_entry(
    base_url: Option<Seq<char>>,
    model: Seq<char>,
    key: Option<Seq<char>>,
) -> ProviderConfigView {
    ProviderConfigView {
        name: "ollama-local"@,
        base_url: text_or(base_url, "http://localhost:11434"@),
        model_name: model,
        api_key: key,
        supports_embeddings: true,
        kind: ProviderKind::OpenAI,
    }
}

/// A key counts only if it is more than blanks.
pub open spec fn real_key(o: Option<Seq<char>>) -> Option<Seq<char>> {
    match o {
        Some(k) => if trimmed(k).len() == 0 {
            None
        } else {
            Some(trimmed(k))
        },
        None => None,
    }
}

fn find_key(o: &Option<String>) -> (r: Option<String>)
    ensures
        opt_text(r) == real_key(opt_text(*o)),
{
    match o {
        Some(k) => {
            let key = trim(k.as_str());
            if key.as_str().is_empty() {
                None
            } else {
                Some(key)
            }
        },
        None => None,
    }
}

/// The model that is used if none is set.
pub open spec fn default_model() -> Seq<char> {
    "qwen2.5:3b"@
}

impl ProviderEnv {
    pub open spec fn model_or_default(&self) -> Seq<char> {
        text_or(opt_text(self.model), default_model())
    }

    /// The explicit endpoints, if there are any.
    pub open spec fn explicit(&self) -> Seq<ProviderConfigView> {
        match self.pool {
            Some(list) => pool_entries(
                endpoints_of(list@),
                self.model_or_default(),
                opt_text(self.ollama_api_key),
            ),
            None => Seq::empty(),
        }
    }

    /// OpenRouter, if there is a key for it.
    pub open spec fn openrouter(&self) -> Seq<ProviderConfigView> {
        match real_key(opt_text(self.openrouter_api_key)) {
            Some(k) => seq![openrouter_entry(k, opt_text(self.openrouter_model))],
            None => Seq::empty(),
        }
    }

    /// Ollama Cloud, if there is a key for it.
    pub open spec fn cloud(&self) -> Seq<ProviderConfigView> {
        match real_key(opt_text(self.cloud_api_key)) {
            Some(k) => seq![
                cloud_entry(k, opt_text(self.model), opt_text(self.cloud_base_url)),
            ],
            None => Seq::empty(),
        }
    }

    /// The local Ollama, which is always there.
    pub open spec fn local(&self) -> ProviderConfigView {
        local_entry(
            opt_text(self.ollama_base_url),
            self.model_or_default(),
            opt_text(self.ollama_api_key),
        )
    }

    /// The whole pool, in the order in which it is asked.
    pub open spec fn providers(&self) -> Seq<ProviderConfigView> {
        (self.explicit() + self.openrouter() + self.cloud()).push(self.local())
    }
}

fn find_endpoints(list: &str) -> (r: Vec<String>)
    ensures
        texts(r@) == endpoints_of(list@),
{
    let pieces = split_on(trim(list).as_str(), ',');
    let ghost all = texts(pieces@);
    let mut out: Vec<String> = Vec::new();
    let mut i: usize = 0;
    assert(all.take(0) =~= Seq::empty());
    assert(texts(out@) =~= Seq::empty());
    while i < pieces.len()
        invariant
            i <= pieces@.len(),
            all == texts(pieces@),
            texts(out@) == endpoints_among(all.take(i as int)),
        decreases pieces@.len() - i,
    {
        proof {
            let next = all.take(i + 1);
            assert(next.drop_last() =~= all.take(i as int));
            assert(next.last() == pieces@[i as int]@);
        }
        let e = strip_class(trim(pieces[i].as_str()).as_str(), CharClass::Quote);
        if !e.as_str().is_empty() {
            let ghost before = out@;
            out.push(e);
            assert(texts(out@) =~= texts(before).push(e@));
        }
        i += 1;
    }
    assert(all.take(i as int) =~= all);
    out
}

/// The provider pool for the given environment:
///
/// 1. every endpoint of `AGENT_PROVIDER_POOL`,
/// 2. OpenRouter, if `OPENROUTER_API_KEY` is set,
/// 3. Ollama Cloud, if `OLLAMA_CLOUD_API_KEY` is set,
/// 4. the local Ollama, always.
pub fn build_provider_pool(env: &ProviderEnv) -> (r: Vec<ProviderConfig>)
    ensures
        config_views(r@) == env.providers(),
{
    let mut providers: Vec<ProviderConfig> = Vec::new();
    let model = copy_or(&env.model, "qwen2.5:3b");
    match &env.pool {
        Some(list) => {
            let endpoints = find_endpoints(list.as_str());
            let ghost want = env.explicit();
            let mut i: usize = 0;
            while i < endpoints.len()
                invariant
                    i <= endpoints@.len(),
                    texts(endpoints@) == endpoints_of(list@),
                    env.pool == Some(*list),
                    want == env.explicit(),
                    model@ == env.model_or_default(),
                    providers@.len() == i,
                    forall|j: int| 0 <= j < i ==> (#[trigger] providers@[j])@ == want[j],
                decreases endpoints@.len() - i,
            {
                assert(texts(endpoints@)[i as int] == endpoints@[i as int]@);
                let mut name = "pool-".to_string();
                name.append(show_usize(i).as_str());
                providers.push(
                    ProviderConfig {
                        name,
                        base_url: endpoints[i].clone(),
                        model_name: model.clone(),
                        api_key: copy_opt(&env.ollama_api_key),
                        supports_embeddings: true,
                        kind: ProviderKind::OpenAI,
                    },
                );
                i += 1;
            }
        },
        None => {},
    }
    assert(config_views(providers@) =~= env.explicit());
    let ghost first = providers@;
    match find_key(&env.openrouter_api_key) {
        Some(key) => {
            providers.push(
                ProviderConfig {
                    name: "openrouter".to_string(),
                    base_url: "https://openrouter.ai/api/v1".to_string(),
                    model_name: copy_or(
                        &env.openrouter_model,
                        "qwen/qwen-2.5-coder-32b-instruct:free",
                    ),
                    api_key: Some(key),
                    supports_embeddings: false,
                    kind: ProviderKind::OpenAI,
                },
            );
        },
        None => {},
    }
    assert(config_views(providers@) =~= config_views(first) + env.openrouter());
    let ghost second = providers@;
    match find_key(&env.cloud_api_key) {
        Some(key) => {
            providers.push(
                ProviderConfig {
                    name: "ollama-cloud".to_string(),
                    base_url: copy_or(&env.cloud_base_url, "https://ollama.com"),
                    model_name: copy_or(&env.model, "nemotron-3-super:cloud"),
                    api_key: Some(key),
                    supports_embeddings: false,
                    kind: ProviderKind::OllamaChat,
                },
            );
        },
        None => {},
    }
    assert(config_views(providers@) =~= config_views(second) + env.cloud());
    let ghost third = providers@;
    providers.push(
        ProviderConfig {
            name: "ollama-local".to_string(),
            base_url: copy_or(&env.ollama_base_url, "http://localhost:11434"),
            model_name: model,
            api_key: copy_opt(&env.ollama_api_key),
            supports_embeddings: true,
            kind: ProviderKind::OpenAI,
        },
    );
    assert(config_views(providers@) =~= config_views(third).push(env.local()));
    providers
}

/// Whatever the environment holds, the pool is not empty and ends with the
/// local Ollama.
pub proof fn law_pool_has_fallback(env: ProviderEnv)
    ensures
        env.providers().len() >= 1,
        env.providers().last() == env.local(),
        env.providers().last().name == "ollama-local"@,
{
}

// ---------------------------------------------------------------------------
// Round robin
// ---------------------------------------------------------------------------

/// Thread-safe round-robin rotator for a pool of endpoints or API keys.
///
/// Each call to `get_next` returns the next one of the list, wrapping around
/// at its end. Clones share the counter.
#[derive(Clone)]
pub struct CredentialRotator {
    endpoints: Vec<String>,
    counter: Arc<AtomicUsize>,
}

/// Draw the next ticket. Tickets of one counter go up by one, whoever draws
/// them, until they wrap around.
fn draw(counter: &AtomicUsize) -> usize {
    counter.fetch_add(1, std::sync::atomic::Ordering::Relaxed)
}

/// The place in a list of `n` whose turn it is at a ticket.
pub open spec fn place_at(n: nat, ticket: nat) -> int {
    ticket as int % n as int
}

/// The entry of a list whose turn it is at a ticket.
pub open spec fn turn(list: Seq<Seq<char>>, ticket: usize) -> Seq<char> {
    list[place_at(list.len(), ticket as nat)]
}

impl CredentialRotator {
    pub closed spec fn pool(&self) -> Seq<Seq<char>> {
        texts(self.endpoints@)
    }

    /// A new rotator from a non-empty list of endpoints.
    pub fn new(endpoints: Vec<String>) -> (r: Self)
        requires
            endpoints@.len() > 0,
        ensures
            r.pool() == texts(endpoints@),
    {
        CredentialRotator { endpoints, counter: Arc::new(AtomicUsize::new(0)) }
    }

    /// The endpoint for a ticket: tickets go round the pool.
    pub fn endpoint_at(&self, ticket: usize) -> (r: Option<String>)
        ensures
            opt_text(r) == if self.pool().len() == 0 {
                None
            } else {
                Some(turn(self.pool(), ticket))
            },
    {
        if self.endpoints.len() == 0 {
            return None;
        }
        let i: usize = ticket % self.endpoints.len();
        assert(texts(self.endpoints@)[i as int] == self.endpoints@[i as int]@);
        Some(self.endpoints[i].clone())
    }

    /// The next endpoint in round-robin order; `None` only if the pool is
    /// empty. Each call draws one ticket from the shared counter.
    pub fn get_next(&self) -> (r: Option<String>)
        ensures
            self.pool().len() == 0 ==> r is None,
            self.pool().len() > 0 ==> exists|ticket: usize|
                opt_text(r) == Some(#[trigger] turn(self.pool(), ticket)),
    {
        let ticket: usize = draw(&self.counter);
        self.endpoint_at(ticket)
    }
}

/// The entries whose turn it is at the tickets from `first` on, as many as the
/// list has.
pub open spec fn turns(list: Seq<Seq<char>>, first: usize) -> Seq<Seq<char>> {
    Seq::new(list.len(), |k: int| turn(list, (first + k) as usize))
}

/// As many tickets in a row as a list has entries give every entry its turn,
/// once and in the order of the list: they begin with the entry whose turn it
/// is and go round. The first tickets of all give the list itself.
pub proof fn law_round_robin(list: Seq<Seq<char>>, first: usize)
    requires
        list.len() > 0,
        first + list.len() <= usize::MAX + 1,
    ensures
        ({
            let p = place_at(list.len(), first as nat);
            &&& 0 <= p < list.len()
            &&& turns(list, first) == list.skip(p) + list.take(p)
        }),
        turns(list, 0) == list,
{
    let n = list.len() as int;
    let p = place_at(list.len(), first as nat);
    let q = first as int / n;
    vstd::arithmetic::div_mod::lemma_fundamental_div_mod(first as int, n);
    vstd::arithmetic::div_mod::lemma_mod_bound(first as int, n);
    let round = list.skip(p) + list.take(p);
    assert forall|k: int| 0 <= k < n implies turns(list, first)[k] == #[trigger] round[k] by {
        assert(n * q == q * n) by (nonlinear_arith);
        assert((q + 1) * n == q * n + n) by (nonlinear_arith);
        if p + k < n {
            vstd::arithmetic::div_mod::lemma_fundamental_div_mod_converse(first + k, n, q, p + k);
        } else {
            vstd::arithmetic::div_mod::lemma_fundamental_div_mod_converse(
                first + k,
                n,
                q + 1,
                p + k - n,
            );
        }
    }
    assert(turns(list, first) =~= round);
    assert forall|k: int| 0 <= k < n implies turns(list, 0)[k] == #[trigger] list[k] by {
        vstd::arithmetic::div_mod::lemma_small_mod(k as nat, list.len());
    }
    assert(turns(list, 0) =~= list);
}

/// As many tickets in a row as there are places visit every place, and no two
/// of them the same place.
pub proof fn law_places_take_turns(n: nat, first: nat, place: nat)
    requires
        place < n,
    ensures
        exists|k: nat| k < n && #[trigger] place_at(n, first + k) == place,
        forall|a: nat, b: nat|
            a < b < n ==> #[trigger] place_at(n, first + a) != #[trigger] place_at(n, first + b),
{
    let start = first as int % n as int;
    let k: nat = (if start <= place {
        place - start
    } else {
        place - start + n
    }) as nat;
    vstd::arithmetic::div_mod::lemma_fundamental_div_mod(first as int, n as int);
    let q = first as int / n as int;
    assert(place_at(n, first + k) == place) by {
        if start <= place {
            assert(n * q == q * n) by (nonlinear_arith);
            assert(first + k == q * n + place);
            vstd::arithmetic::div_mod::lemma_fundamental_div_mod_converse(
                (first + k) as int,
                n as int,
                q,
                place as int,
            );
        } else {
            assert((q + 1) * n == n * q + n) by (nonlinear_arith);
            assert(first + k == (q + 1) * n + place);
            vstd::arithmetic::div_mod::lemma_fundamental_div_mod_converse(
                (first + k) as int,
                n as int,
                q + 1,
                place as int,
            );
        }
    }
    assert forall|a: nat, b: nat| a < b < n implies #[trigger] place_at(n, first + a)
        != #[trigger] place_at(n, first + b) by {
        let x = (first + a) as int;
        let y = (first + b) as int;
        if x % n as int == y % n as int {
            vstd::arithmetic::div_mod::lemma_fundamental_div_mod(x, n as int);
            vstd::arithmetic::div_mod::lemma_fundamental_div_mod(y, n as int);
            let qx = x / n as int;
            let qy = y / n as int;
            assert(n * (qy - qx) == n * qy - n * qx) by (nonlinear_arith);
            assert(n * (qy - qx) == b - a);
            assert(qy - qx >= 1 || qy - qx <= 0);
            if qy - qx >= 1 {
                assert(n * (qy - qx) >= n) by (nonlinear_arith)
                    requires
                        qy - qx >= 1,
                ;
            } else {
                assert(n * (qy - qx) <= 0) by (nonlinear_arith)
                    requires
                        qy - qx <= 0,
                ;
            }
        }
    }
}

// ---------------------------------------------------------------------------
// Requests
// ---------------------------------------------------------------------------

/// What a request asks for.
#[derive(Debug, Clone, Copy, PartialEq, Eq, Structural)]
pub enum Purpose {
    /// A streamed answer.
    Chat,
    /// The embedding of a text.
    Embedding,
}

/// The address of a provider of the pool for a request.
pub open spec fn request_url(cfg: ProviderConfigView, purpose: Purpose) -> Seq<char> {
    drop_back(cfg.base_url, CharClass::Slash) + match (purpose, cfg.kind) {
        (Purpose::Embedding, _) => "/api/embeddings"@,
        (Purpose::Chat, ProviderKind::OpenAI) => "/v1/chat/completions"@,
        (Purpose::Chat, ProviderKind::OllamaChat) => "/api/chat"@,
    }
}

/// The value of the `Authorization` header for a key.
pub open spec fn bearer(key: Option<Seq<char>>) -> Option<Seq<char>> {
    match key {
        Some(k) => Some("Bearer "@ + k),
        None => None,
    }
}

/// The value of the `Authorization` header for a key.
pub fn bearer_header(key: &Option<String>) -> (r: Option<String>)
    ensures
        opt_text(r) == bearer(opt_text(*key)),
{
    match key {
        Some(k) => {
            let mut s = "Bearer ".to_string();
            s.append(k.as_str());
            Some(s)
        },
        None => None,
    }
}

impl ProviderConfig {
    /// The address for a request.
    pub fn url(&self, purpose: Purpose) -> (r: String)
        ensures
            r@ == request_url(self@, purpose),
    {
        let mut s = trim_back(self.base_url.as_str(), CharClass::Slash);
        match purpose {
            Purpose::Embedding => s.append("/api/embeddings"),
            Purpose::Chat => match self.kind {
                ProviderKind::OpenAI => s.append("/v1/chat/completions"),
                ProviderKind::OllamaChat => s.append("/api/chat"),
            },
        }
        s
    }
}

// ---------------------------------------------------------------------------
// Failover
// ---------------------------------------------------------------------------

/// What came back from a provider.
#[derive(Debug, PartialEq, Eq)]
pub enum Reply {
    /// The request did not get through, or its answer could not be read.
    Broken(String),
    /// A status outside 200..=299, with the body.
    Refused { status: u16, body: String },
    /// A success.
    Good,
}

pub enum ReplyView {
    Broken(Seq<char>),
    Refused { status: u16, body: Seq<char> },
    Good,
}

impl View for Reply {
    type V = ReplyView;

    open spec fn view(&self) -> ReplyView {
        match *self {
            Reply::Broken(e) => ReplyView::Broken(e@),
            Reply::Refused { status, body } => ReplyView::Refused { status, body: body@ },
            Reply::Good => ReplyView::Good,
        }
    }
}

/// The next thing to do about a request.
#[derive(Debug, PartialEq, Eq)]
pub enum Move {
    /// Send the request to this provider of the pool.
    Ask(usize),
    /// This provider cannot serve the request; go on.
    Skip,
    /// No provider is left, or there is no use in trying another one.
    GiveUp(ProviderError),
    /// Take the answer.
    Accept,
    /// Try another provider.
    Next,
}

pub enum MoveView {
    Ask(usize),
    Skip,
    GiveUp(ProviderErrorView),
    Accept,
    Next,
}

impl View for Move {
    type V = MoveView;

    open spec fn view(&self) -> MoveView {
        match *self {
            Move::Ask(i) => MoveView::Ask(i),
            Move::Skip => MoveView::Skip,
            Move::GiveUp(e) => MoveView::GiveUp(e@),
            Move::Accept => MoveView::Accept,
            Move::Next => MoveView::Next,
        }
    }
}

/// One request on its way through the pool.
pub struct Failover {
    purpose: Purpose,
    left: usize,
    last_error: ProviderError,
}

/// How many providers may still be tried, and the error to report if none of
/// them answers.
pub struct FailoverView {
    pub purpose: Purpose,
    pub left: nat,
    pub last_error: ProviderErrorView,
}

impl View for Failover {
    type V = FailoverView;

    closed spec fn view(&self) -> FailoverView {
        FailoverView {
            purpose: self.purpose,
            left: self.left as nat,
            last_error: self.last_error@,
        }
    }
}

impl FailoverView {
    /// Before the first attempt.
    pub open spec fn fresh(purpose: Purpose, count: nat) -> FailoverView {
        FailoverView {
            purpose,
            left: count,
            last_error: ProviderErrorView::Execution(
                match purpose {
                    Purpose::Chat => "All providers failed"@,
                    Purpose::Embedding => "All providers failed for embedding"@,
                },
            ),
        }
    }

    /// The next provider for a ticket, and the state behind that choice.
    pub open spec fn chosen(self, pool: Seq<ProviderConfigView>, ticket: usize) -> (
        FailoverView,
        MoveView,
    ) {
        let i = place_at(pool.len(), ticket as nat) as usize;
        if self.left == 0 || pool.len() == 0 {
            (self, MoveView::GiveUp(self.last_error))
        } else {
            (
                FailoverView { left: (self.left - 1) as nat, ..self },
                if self.purpose == Purpose::Embedding && !pool[i as int].supports_embeddings {
                    MoveView::Skip
                } else {
                    MoveView::Ask(i)
                },
            )
        }
    }

    /// What a reply means. A context that is too large (413) is no reason to
    /// ask another provider.
    pub open spec fn judged(self, reply: ReplyView) -> (FailoverView, MoveView) {
        match reply {
            ReplyView::Good => (self, MoveView::Accept),
            ReplyView::Broken(e) => (
                FailoverView { last_error: ProviderErrorView::Network(e), ..self },
                MoveView::Next,
            ),
            ReplyView::Refused { status, body } => {
                let e = ProviderErrorView::ApiError { status, body };
                if self.purpose == Purpose::Chat && status == 413 {
                    (self, MoveView::GiveUp(e))
                } else {
                    (FailoverView { last_error: e, ..self }, MoveView::Next)
                }
            },
        }
    }

    /// The state after a row of replies none of which ends the search.
    pub open spec fn after(self, replies: Seq<ReplyView>) -> FailoverView
        decreases replies.len(),
    {
        if replies.len() == 0 {
            self
        } else {
            self.after(replies.drop_last()).judged(replies.last()).0
        }
    }
}

impl Failover {
    /// Judge the reply of the provider that was asked last.
    pub fn judge(&mut self, reply: Reply) -> (r: Move)
        ensures
            (final(self)@, r@) == old(self)@.judged(reply@),
    {
        match reply {
            Reply::Good => Move::Accept,
            Reply::Broken(e) => {
                self.last_error = ProviderError::Network(e);
                Move::Next
            },
            Reply::Refused { status, body } => {
                let e = ProviderError::ApiError { status, body };
                if self.purpose == Purpose::Chat && status == 413 {
                    Move::GiveUp(e)
                } else {
                    self.last_error = e;
                    Move::Next
                }
            },
        }
    }
}

/// The error that is reported in the end is that of the last failing reply; a
/// row of failures leaves the number of attempts alone.
pub proof fn law_last_failure_is_reported(start: FailoverView, replies: Seq<ReplyView>)
    requires
        replies.len() > 0,
    ensures
        start.after(replies).left == start.left,
        start.after(replies).purpose == start.purpose,
        replies.last() matches ReplyView::Broken(e) ==> start.after(replies).last_error
            == ProviderErrorView::Network(e),
        replies.last() matches ReplyView::Refused { status, body } ==> (start.purpose
            == Purpose::Chat && status == 413) || start.after(replies).last_error
            == (ProviderErrorView::ApiError { status, body }),
    decreases replies.len(),
{
    if replies.len() > 1 {
        law_last_failure_is_reported(start, replies.drop_last());
    } else {
        assert(start.after(replies.drop_last()) == start);
    }
}

/// A request is sent at most once per provider of the pool: every choice uses
/// up one attempt, and without attempts left the search ends with the last
/// error.
pub proof fn law_attempts_are_bounded(
    state: FailoverView,
    pool: Seq<ProviderConfigView>,
    ticket: usize,
)
    ensures
        state.left == 0 ==> state.chosen(pool, ticket).1 == MoveView::GiveUp(state.last_error),
        state.left > 0 && pool.len() > 0 ==> state.chosen(pool, ticket).0.left == state.left - 1,
        forall|reply: ReplyView| #[trigger] state.judged(reply).0.left == state.left,
{
}

/// The choice for a chat request after `k` attempts, if the tickets go up by
/// one from `first` on.
pub open spec fn choice_after(
    pool: Seq<ProviderConfigView>,
    first: usize,
    k: nat,
    last_error: ProviderErrorView,
) -> MoveView {
    FailoverView { purpose: Purpose::Chat, left: (pool.len() - k) as nat, last_error }.chosen(
        pool,
        (first + k) as usize,
    ).1
}

/// A chat request that keeps failing reaches every provider of the pool.
pub proof fn law_every_provider_is_asked(
    pool: Seq<ProviderConfigView>,
    first: usize,
    i: usize,
    last_error: ProviderErrorView,
)
    requires
        i < pool.len(),
        first + pool.len() <= usize::MAX,
    ensures
        exists|k: nat|
            k < pool.len() && #[trigger] choice_after(pool, first, k, last_error)
                == MoveView::Ask(i),
{
    law_places_take_turns(pool.len(), first as nat, i as nat);
    let k = choose|k: nat|
        k < pool.len() && #[trigger] place_at(pool.len(), first as nat + k) == i;
    assert(choice_after(pool, first, k, last_error) == MoveView::Ask(i));
}

/// A pool of providers. If one fails (no connection, or a status other than
/// success) the next one is asked, round robin; the caller does not notice.
#[derive(Clone)]
pub struct FallbackProvider {
    providers: Vec<ProviderConfig>,
    current_index: Arc<AtomicUsize>,
    chunk_timeout_ms: u64,
    embedding_model: String,
}

impl FallbackProvider {
    pub closed spec fn pool(&self) -> Seq<ProviderConfigView> {
        config_views(self.providers@)
    }

    pub closed spec fn timeout(&self) -> u64 {
        self.chunk_timeout_ms
    }

    pub closed spec fn embeds_with(&self) -> Seq<char> {
        self.embedding_model@
    }

    /// A provider for the given pool; `embedding_model` is the value of
    /// `AI_AGENT_EMBEDDING_MODEL`.
    pub fn new(
        providers: Vec<ProviderConfig>,
        chunk_timeout_ms: u64,
        embedding_model: &Option<String>,
    ) -> (r: Self)
        ensures
            r.pool() == config_views(providers@),
            r.timeout() == chunk_timeout_ms,
            r.embeds_with() == text_or(opt_text(*embedding_model), "nomic-embed-text"@),
    {
        FallbackProvider {
            providers,
            current_index: Arc::new(AtomicUsize::new(0)),
            chunk_timeout_ms,
            embedding_model: copy_or(embedding_model, "nomic-embed-text"),
        }
    }

    /// The provider for the pool of the environment, with ten seconds for a
    /// chunk.
    pub fn from_env(env: &ProviderEnv) -> (r: Self)
        ensures
            r.pool() == env.providers(),
            r.timeout() == 10_000,
            r.embeds_with() == text_or(opt_text(env.embedding_model), "nomic-embed-text"@),
    {
        FallbackProvider::new(build_provider_pool(env), 10_000, &env.embedding_model)
    }

    /// Number of providers in the pool.
    pub fn provider_count(&self) -> (r: usize)
        ensures
            r == self.pool().len(),
    {
        self.providers.len()
    }

    /// How long to wait for a chunk, in milliseconds.
    pub fn chunk_timeout(&self) -> (r: u64)
        ensures
            r == self.timeout(),
    {
        self.chunk_timeout_ms
    }

    /// The model that makes embeddings.
    pub fn embedding_model(&self) -> (r: String)
        ensures
            r@ == self.embeds_with(),
    {
        self.embedding_model.clone()
    }

    /// A provider of the pool.
    pub fn provider(&self, i: usize) -> (r: &ProviderConfig)
        requires
            i < self.pool().len(),
        ensures
            r@ == self.pool()[i as int],
    {
        &self.providers[i]
    }

    /// Start a request.
    pub fn begin(&self, purpose: Purpose) -> (r: Failover)
        ensures
            r@ == FailoverView::fresh(purpose, self.pool().len()),
    {
        let last_error = match purpose {
            Purpose::Chat => ProviderError::Execution("All providers failed".to_string()),
            Purpose::Embedding => ProviderError::Execution(
                "All providers failed for embedding".to_string(),
            ),
        };
        Failover { purpose, left: self.providers.len(), last_error }
    }

    /// Choose the provider for a ticket.
    pub fn choose_at(&self, search: &mut Failover, ticket: usize) -> (r: Move)
        ensures
            (final(search)@, r@) == old(search)@.chosen(self.pool(), ticket),
            r matches Move::Ask(i) ==> i < self.pool().len(),
    {
        if search.left == 0 || self.providers.len() == 0 {
            return Move::GiveUp(search.last_error.clone());
        }
        let i: usize = ticket % self.providers.len();
        search.left = search.left - 1;
        assert(self.pool()[i as int] == self.providers@[i as int]@);
        if search.purpose == Purpose::Embedding && !self.providers[i].supports_embeddings {
            Move::Skip
        } else {
            Move::Ask(i)
        }
    }

    /// Choose the next provider; the ticket is drawn from the counter that all
    /// requests share.
    pub fn choose_next(&self, search: &mut Failover) -> (r: Move)
        ensures
            exists|ticket: usize|
                (final(search)@, r@) == #[trigger] old(search)@.chosen(self.pool(), ticket),
            r matches Move::Ask(i) ==> i < self.pool().len(),
    {
        if search.left == 0 || self.providers.len() == 0 {
            return self.choose_at(search, 0);
        }
        let ticket: usize = draw(&self.current_index);
        self.choose_at(search, ticket)
    }
}

// ---------------------------------------------------------------------------
// Lines of a streamed answer
// ---------------------------------------------------------------------------

/// What a line of a streamed answer means.
#[derive(Debug, PartialEq, Eq)]
pub enum StreamLine {
    /// Nothing of interest.
    Skip,
    /// The stream is complete.
    Stop,
    /// A chunk, as JSON text.
    Data(String),
}

pub enum StreamLineView {
    Skip,
    Stop,
    Data(Seq<char>),
}

impl View for StreamLine {
    type V = StreamLineView;

    open spec fn view(&self) -> StreamLineView {
        match *self {
            StreamLine::Skip => StreamLineView::Skip,
            StreamLine::Stop => StreamLineView::Stop,
            StreamLine::Data(s) => StreamLineView::Data(s@),
        }
    }
}

/// Lines of server-sent events: `data: [DONE]` ends the stream, `data: `
/// introduces a chunk, and everything else is passed over.
pub open spec fn sse_line(line: Seq<char>) -> StreamLineView {
    let t = trimmed(line);
    if t == "data: [DONE]"@ {
        StreamLineView::Stop
    } else if begins_with(t, "data: "@) {
        StreamLineView::Data(t.skip("data: "@.len() as int))
    } else {
        StreamLineView::Skip
    }
}

/// Lines of plain JSON: every line that is not blank is a chunk.
pub open spec fn ndjson_line(line: Seq<char>) -> StreamLineView {
    let t = trimmed(line);
    if t.len() == 0 {
        StreamLineView::Skip
    } else {
        StreamLineView::Data(t)
    }
}

/// Read a line of an answer in the format of `kind`.
pub fn read_line(kind: ProviderKind, line: &str) -> (r: StreamLine)
    ensures
        r@ == match kind {
            ProviderKind::OpenAI => sse_line(line@),
            ProviderKind::OllamaChat => ndjson_line(line@),
        },
{
    let t = trim(line);
    match kind {
        ProviderKind::OllamaChat => {
            if t.as_str().is_empty() {
                StreamLine::Skip
            } else {
                StreamLine::Data(t)
            }
        },
        ProviderKind::OpenAI => {
            if same(t.as_str(), "data: [DONE]") {
                return StreamLine::Stop;
            }
            if starts_with(t.as_str(), "data: ") {
                proof {
                    reveal_strlit("data: ");
                }
                let chars = chars_of(t.as_str());
                let data = text_range(&chars, 6, chars.len());
                assert(data@ =~= t@.skip("data: "@.len() as int));
                return StreamLine::Data(data);
            }
            StreamLine::Skip
        },
    }
}

// ---------------------------------------------------------------------------
// A single Ollama endpoint
// ---------------------------------------------------------------------------

/// A provider with one fixed endpoint, or a rotating one.
#[derive(Clone)]
pub struct OllamaProvider {
    base_url: String,
    chunk_timeout_ms: u64,
    rotator: Option<CredentialRotator>,
    api_key: Option<String>,
    embedding_model: String,
}

#[verifier::ext_equal]
pub struct OllamaView {
    pub base_url: Seq<char>,
    pub chunk_timeout_ms: u64,
    /// The endpoints that take turns; `None` without a rotator.
    pub pool: Option<Seq<Seq<char>>>,
    pub api_key: Option<Seq<char>>,
    pub embedding_model: Seq<char>,
}

impl View for OllamaProvider {
    type V = OllamaView;

    closed spec fn view(&self) -> OllamaView {
        OllamaView {
            base_url: self.base_url@,
            chunk_timeout_ms: self.chunk_timeout_ms,
            pool: match self.rotator {
                Some(r) => Some(r.pool()),
                None => None,
            },
            api_key: opt_text(self.api_key),
            embedding_model: self.embedding_model@,
        }
    }
}

/// The address for a request to a single endpoint.
pub open spec fn endpoint_url(base: Seq<char>, purpose: Purpose) -> Seq<char> {
    base + match purpose {
        Purpose::Chat => "/v1/chat/completions"@,
        Purpose::Embedding => "/api/embeddings"@,
    }
}

impl OllamaProvider {
    /// A provider for one endpoint; `embedding_model` is the value of
    /// `AI_AGENT_EMBEDDING_MODEL`.
    pub fn new(
        base_url: impl IntoText,
        chunk_timeout_ms: u64,
        embedding_model: &Option<String>,
    ) -> (r: Self)
        ensures
            r@ == (OllamaView {
                base_url: base_url.text(),
                chunk_timeout_ms,
                pool: None,
                api_key: None,
                embedding_model: text_or(opt_text(*embedding_model), "nomic-embed-text"@),
            }),
    {
        OllamaProvider {
            base_url: base_url.into_text(),
            chunk_timeout_ms,
            rotator: None,
            api_key: None,
            embedding_model: copy_or(embedding_model, "nomic-embed-text"),
        }
    }

    /// The local Ollama, with ten seconds for a chunk.
    pub fn local(embedding_model: &Option<String>) -> (r: Self)
        ensures
            r@ == (OllamaView {
                base_url: "http://localhost:11434"@,
                chunk_timeout_ms: 10_000,
                pool: None,
                api_key: None,
                embedding_model: text_or(opt_text(*embedding_model), "nomic-embed-text"@),
            }),
    {
        OllamaProvider::new("http://localhost:11434", 10_000, embedding_model)
    }

    /// Let the endpoints of a rotator take turns.
    pub fn with_rotator(self, rotator: CredentialRotator) -> (r: Self)
        ensures
            r@ == (OllamaView { pool: Some(rotator.pool()), ..self@ }),
    {
        OllamaProvider { rotator: Some(rotator), ..self }
    }

    /// Set a key for Bearer authentication.
    pub fn with_api_key(self, key: String) -> (r: Self)
        ensures
            r@ == (OllamaView { api_key: Some(key@), ..self@ }),
    {
        OllamaProvider { api_key: Some(key), ..self }
    }

    /// The base URL to use: the turn of the rotator, or the fixed one.
    fn base(&self) -> (r: String)
        ensures
            match self@.pool {
                Some(pool) => if pool.len() == 0 {
                    r@ == self@.base_url
                } else {
                    exists|ticket: usize|
                        r@ == #[trigger] turn(pool, ticket)
                },
                None => r@ == self@.base_url,
            },
    {
        match &self.rotator {
            Some(rotator) => match rotator.get_next() {
                Some(url) => url,
                None => self.base_url.clone(),
            },
            None => self.base_url.clone(),
        }
    }

    /// The address for the next request.
    pub fn url(&self, purpose: Purpose) -> (r: String)
        ensures
            match self@.pool {
                Some(pool) => if pool.len() == 0 {
                    r@ == endpoint_url(self@.base_url, purpose)
                } else {
                    exists|ticket: usize|
                        r@ == endpoint_url(
                            #[trigger] turn(pool, ticket),
                            purpose,
                        )
                },
                None => r@ == endpoint_url(self@.base_url, purpose),
            },
    {
        let mut s = self.base();
        match purpose {
            Purpose::Chat => s.append("/v1/chat/completions"),
            Purpose::Embedding => s.append("/api/embeddings"),
        }
        s
    }

    /// The value of the `Authorization` header.
    pub fn authorization(&self) -> (r: Option<String>)
        ensures
            opt_text(r) == bearer(self@.api_key),
    {
        bearer_header(&self.api_key)
    }

    /// How long to wait for a chunk, in milliseconds.
    pub fn chunk_timeout(&self) -> (r: u64)
        ensures
            r == self@.chunk_timeout_ms,
    {
        self.chunk_timeout_ms
    }

    /// The model that makes embeddings.
    pub fn embedding_model(&self) -> (r: String)
        ensures
            r@ == self@.embedding_model,
    {
        self.embedding_model.clone()
    }
}

/// Patience with an endpoint that is still loading its model.
pub struct Backoff {
    attempts: u64,
}

/// How long to wait after the given number of refusals, in seconds.
pub open spec fn wait_after(refusals: nat) -> nat
    decreases refusals,
{
    if refusals <= 1 {
        2
    } else {
        2 * wait_after((refusals - 1) as nat)
    }
}

/// What a reply of the endpoint leads to.
#[derive(Debug, PartialEq, Eq)]
pub enum Patience {
    /// Take the answer.
    Accept,
    /// Wait so many seconds and send the request again.
    Wait(u64),
    /// Report this error.
    Fail(ProviderError),
}

pub enum PatienceView {
    Accept,
    Wait(u64),
    Fail(ProviderErrorView),
}

impl View for Patience {
    type V = PatienceView;

    open spec fn view(&self) -> PatienceView {
        match *self {
            Patience::Accept => PatienceView::Accept,
            Patience::Wait(n) => PatienceView::Wait(n),
            Patience::Fail(e) => PatienceView::Fail(e@),
        }
    }
}

/// The number of refusals after a reply, and what to do: status 503 is waited
/// for five times, everything else is final.
pub open spec fn patience(refusals: nat, reply: ReplyView) -> (nat, PatienceView) {
    match reply {
        ReplyView::Good => (refusals, PatienceView::Accept),
        ReplyView::Broken(e) => (refusals, PatienceView::Fail(ProviderErrorView::Network(e))),
        ReplyView::Refused { status, body } => if status != 503 {
            (refusals, PatienceView::Fail(ProviderErrorView::ApiError { status, body }))
        } else if refusals + 1 > 5 {
            (
                refusals + 1,
                PatienceView::Fail(
                    ProviderErrorView::ApiError {
                        status: 503,
                        body: "Ollama loading timeout after 5 retries"@,
                    },
                ),
            )
        } else {
            (refusals + 1, PatienceView::Wait(wait_after(refusals + 1) as u64))
        },
    }
}

impl Backoff {
    pub closed spec fn refusals(&self) -> nat {
        self.attempts as nat
    }

    pub fn new() -> (r: Self)
        ensures
            r.refusals() == 0,
    {
        Backoff { attempts: 0 }
    }

    /// Judge a reply.
    pub fn judge(&mut self, reply: Reply) -> (r: Patience)
        requires
            old(self).refusals() <= 5,
        ensures
            (final(self).refusals(), r@) == patience(old(self).refusals(), reply@),
    {
        match reply {
            Reply::Good => Patience::Accept,
            Reply::Broken(e) => Patience::Fail(ProviderError::Network(e)),
            Reply::Refused { status, body } => {
                if status != 503 {
                    return Patience::Fail(ProviderError::ApiError { status, body });
                }
                self.attempts = self.attempts + 1;
                if self.attempts > 5 {
                    return Patience::Fail(
                        ProviderError::ApiError {
                            status: 503,
                            body: "Ollama loading timeout after 5 retries".to_string(),
                        },
                    );
                }
                proof {
                    reveal_with_fuel(wait_after, 6);
                }
                let secs: u64 = match self.attempts {
                    1 => 2,
                    2 => 4,
                    3 => 8,
                    4 => 16,
                    _ => 32,
                };
                Patience::Wait(secs)
            },
        }
    }
}

/// An endpoint that keeps answering 503 is asked again after 2, 4, 8, 16 and
/// 32 seconds; the sixth refusal is final.
pub proof fn law_backoff(body: Seq<char>)
    ensures
        ({
            let busy = ReplyView::Refused { status: 503, body };
            &&& patience(0, busy) == (1nat, PatienceView::Wait(2))
            &&& patience(1, busy) == (2nat, PatienceView::Wait(4))
            &&& patience(2, busy) == (3nat, PatienceView::Wait(8))
            &&& patience(3, busy) == (4nat, PatienceView::Wait(16))
            &&& patience(4, busy) == (5nat, PatienceView::Wait(32))
            &&& patience(5, busy).1 is Fail
        }),
{
    reveal_with_fuel(wait_after, 6);
}

// ---------------------------------------------------------------------------
// What failover is for
// ---------------------------------------------------------------------------

/// A failure is no reason to stop: whatever a provider replies, the next one
/// is asked, with two exceptions. A success is taken, and a chat request that
/// is too large (status 413) is given up with that very error. Only the error
/// to report changes with a reply.
pub proof fn law_failure_leads_on(state: FailoverView, reply: ReplyView)
    ensures
        ({
            let (after, next) = state.judged(reply);
            &&& reply is Good <==> next is Accept
            &&& reply is Broken ==> next is Next
            &&& reply matches ReplyView::Refused { status, body } ==> if status == 413
                && state.purpose == Purpose::Chat {
                next == MoveView::GiveUp(ProviderErrorView::ApiError { status: 413, body })
            } else {
                next is Next
            }
            &&& next is GiveUp ==> state.purpose == Purpose::Chat && (
            reply matches ReplyView::Refused { status, body } && status == 413)
            &&& !(next is Ask) && !(next is Skip)
            &&& after.left == state.left && after.purpose == state.purpose
            &&& !(next is Next) ==> after.last_error == state.last_error
            &&& next is Next ==> (reply matches ReplyView::Broken(e) ==> after.last_error
                == ProviderErrorView::Network(e)) && (reply matches ReplyView::Refused {
                status,
                body,
            } ==> after.last_error == (ProviderErrorView::ApiError { status, body }))
        }),
{
}

/// None of the replies ends the search.
pub open spec fn all_fail(purpose: Purpose, replies: Seq<ReplyView>) -> bool {
    forall|i: int|
        0 <= i < replies.len() ==> match #[trigger] replies[i] {
            ReplyView::Good => false,
            ReplyView::Broken(_) => true,
            ReplyView::Refused { status, body } => status != 413 || purpose != Purpose::Chat,
        }
}

/// The state of a request after as many attempts as there are replies, with
/// tickets that go up by one from `first` on.
pub open spec fn search_after(
    pool: Seq<ProviderConfigView>,
    purpose: Purpose,
    first: usize,
    replies: Seq<ReplyView>,
) -> FailoverView
    decreases replies.len(),
{
    if replies.len() == 0 {
        FailoverView::fresh(purpose, pool.len())
    } else {
        let n = (replies.len() - 1) as nat;
        let before = search_after(pool, purpose, first, replies.drop_last());
        before.chosen(pool, (first + n) as usize).0.judged(replies.last()).0
    }
}

/// A chat request goes on as long as providers are left: after any number of
/// failures below the size of the pool the next provider in turn is asked, and
/// that failure leads on as well; after as many failures as there are
/// providers the request is given up with the error of the last one.
pub proof fn law_chat_goes_through_the_pool(
    pool: Seq<ProviderConfigView>,
    first: usize,
    replies: Seq<ReplyView>,
)
    requires
        pool.len() > 0,
        first + pool.len() <= usize::MAX,
        replies.len() <= pool.len(),
        all_fail(Purpose::Chat, replies),
    ensures
        ({
            let state = search_after(pool, Purpose::Chat, first, replies);
            let k = replies.len();
            let next = state.chosen(pool, (first + k) as usize).1;
            &&& state.left == pool.len() - k
            &&& state.purpose == Purpose::Chat
            &&& k < pool.len() ==> next == MoveView::Ask(((first + k) % pool.len() as int) as usize)
            &&& k == pool.len() ==> (replies.last() matches ReplyView::Broken(e) ==> next
                == MoveView::GiveUp(ProviderErrorView::Network(e))) && (
            replies.last() matches ReplyView::Refused { status, body } ==> next
                == MoveView::GiveUp(ProviderErrorView::ApiError { status, body }))
        }),
    decreases replies.len(),
{
    if replies.len() > 0 {
        let before = replies.drop_last();
        assert forall|i: int| 0 <= i < before.len() implies match #[trigger] before[i] {
            ReplyView::Good => false,
            ReplyView::Broken(_) => true,
            ReplyView::Refused { status, body } => status != 413,
        } by {
            assert(before[i] == replies[i]);
        }
        law_chat_goes_through_the_pool(pool, first, before);
        let last = replies[replies.len() - 1];
        assert(replies.last() == last);
        let was = search_after(pool, Purpose::Chat, first, before);
        let n = (replies.len() - 1) as nat;
        law_failure_leads_on(was.chosen(pool, (first + n) as usize).0, last);
    }
}

/// Which provider is chosen: the one in turn, unless none is left to try. For
/// an embedding a provider that makes none is passed over. Every choice uses
/// up one attempt and nothing else.
pub proof fn law_choice(state: FailoverView, pool: Seq<ProviderConfigView>, ticket: usize)
    ensures
        ({
            let (after, next) = state.chosen(pool, ticket);
            let i = ticket as int % pool.len() as int;
            &&& pool.len() == 0 || state.left == 0 ==> after == state && next == MoveView::GiveUp(
                state.last_error,
            )
            &&& pool.len() > 0 && state.left > 0 ==> {
                &&& after.left == state.left - 1
                &&& after.purpose == state.purpose
                &&& after.last_error == state.last_error
                &&& state.purpose == Purpose::Chat ==> next == MoveView::Ask(i as usize)
                &&& state.purpose == Purpose::Embedding && pool[i].supports_embeddings ==> next
                    == MoveView::Ask(i as usize)
                &&& state.purpose == Purpose::Embedding && !pool[i].supports_embeddings ==> next
                    is Skip
            }
        }),
{
    if pool.len() > 0 {
        vstd::arithmetic::div_mod::lemma_mod_bound(ticket as int, pool.len() as int);
        assert(ticket as int % pool.len() as int <= ticket) by {
            vstd::arithmetic::div_mod::lemma_mod_decreases(ticket as nat, pool.len());
        }
        let i = ticket as int % pool.len() as int;
        assert(i as usize as int == i);
    }
}

/// A request begins with as many attempts as the pool has providers, and with
/// an error that says that all of them failed.
pub proof fn law_fresh_request(purpose: Purpose, count: nat)
    ensures
        FailoverView::fresh(purpose, count).left == count,
        FailoverView::fresh(purpose, count).purpose == purpose,
        FailoverView::fresh(Purpose::Chat, count).last_error == ProviderErrorView::Execution(
            "All providers failed"@,
        ),
        FailoverView::fresh(Purpose::Embedding, count).last_error == ProviderErrorView::Execution(
            "All providers failed for embedding"@,
        ),
{
}

// ---------------------------------------------------------------------------
// What requests and answers look like
// ---------------------------------------------------------------------------

/// The address of a request is the base URL without slashes at its end,
/// followed by the path of the format: this holds of every base URL and any
/// number of slashes behind it.
pub proof fn law_request_address(cfg: ProviderConfigView, base: Seq<char>, slashes: nat)
    requires
        cfg.base_url == base + Seq::new(slashes, |i: int| '/'),
        base.len() == 0 || base.last() != '/',
    ensures
        request_url(cfg, Purpose::Embedding) == base + "/api/embeddings"@,
        cfg.kind == ProviderKind::OpenAI ==> request_url(cfg, Purpose::Chat) == base
            + "/v1/chat/completions"@,
        cfg.kind == ProviderKind::OllamaChat ==> request_url(cfg, Purpose::Chat) == base
            + "/api/chat"@,
        endpoint_url(base, Purpose::Chat) == base + "/v1/chat/completions"@,
        endpoint_url(base, Purpose::Embedding) == base + "/api/embeddings"@,
{
    lemma_slashes(base, slashes);
}

proof fn lemma_slashes(base: Seq<char>, slashes: nat)
    requires
        base.len() == 0 || base.last() != '/',
    ensures
        drop_back(base + Seq::new(slashes, |i: int| '/'), CharClass::Slash) == base,
    decreases slashes,
{
    let all = base + Seq::new(slashes, |i: int| '/');
    if slashes == 0 {
        assert(all =~= base);
    } else {
        let n = (slashes - 1) as nat;
        assert(all.drop_last() =~= base + Seq::new(n, |i: int| '/'));
        assert(all.last() == '/');
        lemma_slashes(base, n);
    }
}

/// A key is sent as a bearer token, and without a key nothing is sent.
pub proof fn law_bearer(key: Seq<char>)
    ensures
        bearer(Some(key)) == Some("Bearer "@ + key),
        bearer(None) is None,
{
}

/// Every error is told with what happened and with its details.
pub proof fn law_errors_in_words(e: Seq<char>, status: u16)
    ensures
        ProviderErrorView::Network(e).in_words() == "Network error: "@ + e,
        ProviderErrorView::Serialization(e).in_words() == "Serialization error: "@ + e,
        ProviderErrorView::ChunkTimeout(e).in_words() == "Chunk timeout exceeded ("@ + e + ")"@,
        (ProviderErrorView::ApiError { status, body: e }).in_words() == "API Error (Status "@
            + decimal(status as nat) + "): "@ + e,
        ProviderErrorView::Execution(e).in_words() == "Execution error: "@ + e,
{
}

/// Blanks around a line of an answer do not matter. A line of server-sent
/// events is the end, a chunk with everything behind `data: `, or nothing; a
/// line of plain JSON is a chunk unless it is blank.
pub proof fn law_lines_of_an_answer(line: Seq<char>, data: Seq<char>)
    ensures
        trimmed(line) == "data: [DONE]"@ <==> sse_line(line) is Stop,
        trimmed(line) == "data: "@ + data && trimmed(line) != "data: [DONE]"@ ==> sse_line(line)
            == StreamLineView::Data(data),
        sse_line(line) matches StreamLineView::Data(d) ==> trimmed(line) == "data: "@ + d,
        sse_line(line) is Skip <==> !(exists|d: Seq<char>| #[trigger] is_data(trimmed(line), d)),
        ndjson_line(line) is Skip <==> trimmed(line).len() == 0,
        ndjson_line(line) matches StreamLineView::Data(d) ==> d == trimmed(line),
        !(ndjson_line(line) is Stop),
{
    reveal_strlit("data: ");
    reveal_strlit("data: [DONE]");
    let t = trimmed(line);
    let head = "data: "@;
    assert("data: [DONE]"@.subrange(0, 6) =~= head);
    assert("data: [DONE]"@ =~= head + "data: [DONE]"@.skip(6));
    assert(is_data("data: [DONE]"@, "data: [DONE]"@.skip(6)));
    if begins_with(t, head) {
        assert(t =~= head + t.skip(6));
        assert(is_data(t, t.skip(6)));
    }
    if t == head + data {
        assert(t.subrange(0, 6) =~= head);
        assert(t.skip(6) =~= data);
    }
    if exists|d: Seq<char>| #[trigger] is_data(t, d) {
        let d = choose|d: Seq<char>| #[trigger] is_data(t, d);
        assert(t.subrange(0, 6) =~= head);
    }
}

/// The line carries this data.
pub open spec fn is_data(line: Seq<char>, data: Seq<char>) -> bool {
    line == "data: "@ + data
}

/// Only status 503 is waited for, and at most five times, each time twice as
/// long; every other failure is final at once, with its own error.
pub proof fn law_patience(refusals: nat, reply: ReplyView)
    ensures
        ({
            let (after, next) = patience(refusals, reply);
            &&& reply is Good ==> next is Accept && after == refusals
            &&& reply matches ReplyView::Broken(e) ==> after == refusals && next
                == PatienceView::Fail(ProviderErrorView::Network(e))
            &&& reply matches ReplyView::Refused { status, body } ==> {
                &&& status != 503 ==> after == refusals && next == PatienceView::Fail(
                    ProviderErrorView::ApiError { status, body },
                )
                &&& status == 503 ==> after == refusals + 1
                &&& status == 503 && refusals >= 5 ==> next == PatienceView::Fail(
                    ProviderErrorView::ApiError {
                        status: 503,
                        body: "Ollama loading timeout after 5 retries"@,
                    },
                )
                &&& status == 503 && refusals < 5 ==> next is Wait
                &&& status == 503 && refusals == 0 ==> next == PatienceView::Wait(2)
                &&& status == 503 && 0 < refusals < 5 ==> (patience(
                    (refusals - 1) as nat,
                    reply,
                ).1 matches PatienceView::Wait(n) && next == PatienceView::Wait((2 * n) as u64))
            }
        }),
{
    reveal_with_fuel(wait_after, 7);
}

// ---------------------------------------------------------------------------
// What the pool of the environment holds
// ---------------------------------------------------------------------------

/// The pool consists of the explicit endpoints in their order, OpenRouter and
/// Ollama Cloud if a key for them is more than blanks, and the local Ollama.
pub proof fn law_pool(env: ProviderEnv, i: int)
    ensures
        ({
            let all = env.providers();
            let listed = match env.pool {
                Some(list) => endpoints_of(list@),
                None => Seq::empty(),
            };
            let n = listed.len() as int;
            let router: int = if env.openrouter_api_key is Some && trimmed(
                env.openrouter_api_key->0@,
            ).len() > 0 {
                1
            } else {
                0
            };
            let cloud: int = if env.cloud_api_key is Some && trimmed(env.cloud_api_key->0@).len()
                > 0 {
                1
            } else {
                0
            };
            let model = match env.model {
                Some(m) => m@,
                None => "qwen2.5:3b"@,
            };
            &&& all.len() == n + router + cloud + 1
            &&& 0 <= i < n ==> all[i] == (ProviderConfigView {
                name: "pool-"@ + decimal(i as nat),
                base_url: listed[i],
                model_name: model,
                api_key: opt_text(env.ollama_api_key),
                supports_embeddings: true,
                kind: ProviderKind::OpenAI,
            })
            &&& router == 1 ==> all[n] == (ProviderConfigView {
                name: "openrouter"@,
                base_url: "https://openrouter.ai/api/v1"@,
                model_name: match env.openrouter_model {
                    Some(m) => m@,
                    None => "qwen/qwen-2.5-coder-32b-instruct:free"@,
                },
                api_key: Some(trimmed(env.openrouter_api_key->0@)),
                supports_embeddings: false,
                kind: ProviderKind::OpenAI,
            })
            &&& cloud == 1 ==> all[n + router] == (ProviderConfigView {
                name: "ollama-cloud"@,
                base_url: match env.cloud_base_url {
                    Some(u) => u@,
                    None => "https://ollama.com"@,
                },
                model_name: match env.model {
                    Some(m) => m@,
                    None => "nemotron-3-super:cloud"@,
                },
                api_key: Some(trimmed(env.cloud_api_key->0@)),
                supports_embeddings: false,
                kind: ProviderKind::OllamaChat,
            })
            &&& all.last() == (ProviderConfigView {
                name: "ollama-local"@,
                base_url: match env.ollama_base_url {
                    Some(u) => u@,
                    None => "http://localhost:11434"@,
                },
                model_name: model,
                api_key: opt_text(env.ollama_api_key),
                supports_embeddings: true,
                kind: ProviderKind::OpenAI,
            })
        }),
{
}

/// A piece of a pool list adds one endpoint, at the end: itself without the
/// blanks and quotes around it. A piece that is nothing else adds none.
pub proof fn law_endpoints(pieces: Seq<Seq<char>>, piece: Seq<char>)
    ensures
        endpoints_among(Seq::empty()) == Seq::<Seq<char>>::empty(),
        strip(trimmed(piece), CharClass::Quote).len() == 0 ==> endpoints_among(pieces.push(piece))
            == endpoints_among(pieces),
        strip(trimmed(piece), CharClass::Quote).len() > 0 ==> endpoints_among(pieces.push(piece))
            == endpoints_among(pieces).push(strip(trimmed(piece), CharClass::Quote)),
        endpoints_of(piece) == endpoints_among(split(trimmed(piece), ',')),
{
    assert(pieces.push(piece).drop_last() =~= pieces);
}

/// A default stands in only for a text that is missing.
pub proof fn law_default_text(s: Seq<char>, default: Seq<char>)
    ensures
        text_or(Some(s), default) == s,
        text_or(None, default) == default,
        real_key(None) is None,
        trimmed(s).len() == 0 ==> real_key(Some(s)) is None,
        trimmed(s).len() > 0 ==> real_key(Some(s)) == Some(trimmed(s)),
{
}

/// A provider is seen with all its settings.
pub proof fn law_config_view(c: ProviderConfig, list: Seq<ProviderConfig>, i: int)
    ensures
        c@.name == c.name@,
        c@.base_url == c.base_url@,
        c@.model_name == c.model_name@,
        c.api_key matches Some(k) ==> c@.api_key == Some(k@),
        c.api_key is None ==> c@.api_key is None,
        c@.supports_embeddings == c.supports_embeddings,
        c@.kind == c.kind,
        config_views(list).len() == list.len(),
        0 <= i < list.len() ==> config_views(list)[i] == list[i]@,
{
}

/// What is seen of an error, a reply, a move, a line and a pause is what they
/// hold, under the same names.
pub proof fn law_views(text: String, status: u16, i: usize, n: u64, e: ProviderError)
    ensures
        ProviderError::Network(text)@ == ProviderErrorView::Network(text@),
        ProviderError::Serialization(text)@ == ProviderErrorView::Serialization(text@),
        ProviderError::Execution(text)@ == ProviderErrorView::Execution(text@),
        ProviderError::ChunkTimeout(text)@ == ProviderErrorView::ChunkTimeout(text@),
        (ProviderError::ApiError { status, body: text })@ == (ProviderErrorView::ApiError {
            status,
            body: text@,
        }),
        Reply::Broken(text)@ == ReplyView::Broken(text@),
        (Reply::Refused { status, body: text })@ == (ReplyView::Refused { status, body: text@ }),
        Reply::Good@ is Good,
        Move::Ask(i)@ == MoveView::Ask(i),
        Move::Skip@ is Skip,
        Move::GiveUp(e)@ == MoveView::GiveUp(e@),
        Move::Accept@ is Accept,
        Move::Next@ is Next,
        StreamLine::Skip@ is Skip,
        StreamLine::Stop@ is Stop,
        StreamLine::Data(text)@ == StreamLineView::Data(text@),
        Patience::Accept@ is Accept,
        Patience::Wait(n)@ == PatienceView::Wait(n),
        Patience::Fail(e)@ == PatienceView::Fail(e@),
{
}

} // verus!
