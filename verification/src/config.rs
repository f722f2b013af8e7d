//! The configuration of the agent and the menus that change it.

use vstd::prelude::*;
use crate::agent::Agent;
use crate::provider::{
    build_provider_pool, config_views, copy_or, local_entry, ProviderConfig,
    ProviderConfigView, ProviderEnv, ProviderKind,
};
use crate::safety::SafetyStage;
use crate::text::{
    byte_len, byte_prefix, can_cut, cut_bytes, decimal, law_cut_bytes, law_utf8,
    lemma_byte_len_monotone, longer_than, opt_text, read_number, show_usize, texts, unsigned_number,
};
use crate::tool_routing::AsyncTool;

verus! {

// ---------------------------------------------------------------------------
// The configuration
// ---------------------------------------------------------------------------

/// The whole configuration of the agent.
#[derive(Debug, PartialEq, Eq)]
pub struct SystemConfig {
    /// The pool of model providers.
    pub provider_pool: Vec<ProviderConfig>,
    /// The most steps of one run; 0 means no limit.
    pub max_steps_limit: usize,
    /// The most messages of a branch before it is compacted.
    pub token_compaction_threshold: usize,
    /// Let every tool call pass without asking the safety stages.
    pub safety_auto_approve: bool,
}

#[verifier::ext_equal]
pub struct SystemConfigView {
    pub provider_pool: Seq<ProviderConfigView>,
    pub max_steps_limit: usize,
    pub token_compaction_threshold: usize,
    pub safety_auto_approve: bool,
}

impl View for SystemConfig {
    type V = SystemConfigView;

    open spec fn view(&self) -> SystemConfigView {
        SystemConfigView {
            provider_pool: config_views(self.provider_pool@),
            max_steps_limit: self.max_steps_limit,
            token_compaction_threshold: self.token_compaction_threshold,
            safety_auto_approve: self.safety_auto_approve,
        }
    }
}

/// A text that is not empty.
pub open spec fn nonempty(o: Option<Seq<char>>) -> Option<Seq<char>> {
    match o {
        Some(s) => if s.len() == 0 {
            None
        } else {
            Some(s)
        },
        None => None,
    }
}

/// The configuration without a file: the local Ollama and no limits.
pub open spec fn default_config(env: ProviderEnv) -> SystemConfigView {
    SystemConfigView {
        provider_pool: seq![
            local_entry(
                opt_text(env.ollama_base_url),
                env.model_or_default(),
                nonempty(opt_text(env.ollama_api_key)),
            ),
        ],
        max_steps_limit: 0,
        token_compaction_threshold: 15,
        safety_auto_approve: false,
    }
}

/// A copy of a pool.
pub fn copy_pool(v: &Vec<ProviderConfig>) -> (r: Vec<ProviderConfig>)
    ensures
        config_views(r@) == config_views(v@),
{
    let mut out: Vec<ProviderConfig> = Vec::new();
    let mut i: usize = 0;
    while i < v.len()
        invariant
            i <= v@.len(),
            out@.len() == i,
            forall|j: int| 0 <= j < i ==> (#[trigger] out@[j])@ == v@[j]@,
        decreases v@.len() - i,
    {
        out.push(v[i].clone());
        i += 1;
    }
    assert(config_views(out@) =~= config_views(v@));
    out
}

impl Clone for SystemConfig {
    fn clone(&self) -> (r: Self)
        ensures
            r@ == self@,
    {
        SystemConfig {
            provider_pool: copy_pool(&self.provider_pool),
            max_steps_limit: self.max_steps_limit,
            token_compaction_threshold: self.token_compaction_threshold,
            safety_auto_approve: self.safety_auto_approve,
        }
    }
}

impl SystemConfig {
    /// The configuration without a file: the local Ollama and no limits.
    pub fn from_env(env: &ProviderEnv) -> (r: Self)
        ensures
            r@ == default_config(*env),
    {
        let api_key = match &env.ollama_api_key {
            Some(k) => if k.as_str().is_empty() {
                None
            } else {
                Some(k.clone())
            },
            None => None,
        };
        let mut pool: Vec<ProviderConfig> = Vec::new();
        pool.push(
            ProviderConfig {
                name: "ollama-local".to_string(),
                base_url: copy_or(&env.ollama_base_url, "http://localhost:11434"),
                model_name: copy_or(&env.model, "qwen2.5:3b"),
                api_key,
                supports_embeddings: true,
                kind: ProviderKind::OpenAI,
            },
        );
        let r = SystemConfig {
            provider_pool: pool,
            max_steps_limit: 0,
            token_compaction_threshold: 15,
            safety_auto_approve: false,
        };
        assert(r@ =~= default_config(*env));
        r
    }

    /// The configuration to work with: that of the file, if it could be read
    /// and understood, otherwise the default.
    pub fn load(file: Option<SystemConfig>, env: &ProviderEnv) -> (r: Self)
        ensures
            r@ == match file {
                Some(c) => c@,
                None => default_config(*env),
            },
    {
        match file {
            Some(c) => c,
            None => SystemConfig::from_env(env),
        }
    }

    /// The providers to ask: an explicit pool of the environment goes before
    /// the configuration.
    pub fn providers(&self, env: &ProviderEnv) -> (r: Vec<ProviderConfig>)
        ensures
            config_views(r@) == if env.pool is Some {
                env.providers()
            } else {
                self@.provider_pool
            },
    {
        if env.pool.is_some() {
            build_provider_pool(env)
        } else {
            copy_pool(&self.provider_pool)
        }
    }

    /// Hand the limits on to an agent.
    pub fn apply_to<T: AsyncTool, S: SafetyStage>(&self, agent: &mut Agent<T, S>)
        ensures
            final(agent).max_steps == self.max_steps_limit,
            final(agent).compaction_config.max_messages == self.token_compaction_threshold,
            final(agent).compaction_config.reserve_recent == old(
                agent,
            ).compaction_config.reserve_recent,
            final(agent).safety_auto_approve == self.safety_auto_approve,
            final(agent).context == old(agent).context,
            final(agent).router == old(agent).router,
            final(agent).safety == old(agent).safety,
    {
        agent.max_steps = self.max_steps_limit;
        agent.compaction_config.max_messages = self.token_compaction_threshold;
        agent.safety_auto_approve = self.safety_auto_approve;
    }
}

// ---------------------------------------------------------------------------
// Menus
// ---------------------------------------------------------------------------

/// What the main menu leads to.
#[derive(Debug, Clone, Copy, PartialEq, Eq, Structural)]
pub enum MainChoice {
    View,
    Providers,
    Limits,
    Save,
    Leave,
}

/// The items of the main menu.
pub fn main_menu() -> (r: Vec<&'static str>)
    ensures
        r@.len() == 4,
        r@[0]@ == "Просмотр текущей конфигурации"@,
        r@[1]@ == "Настройка пула провайдеров"@,
        r@[2]@ == "Изменение лимитов безопасности"@,
        r@[3]@ == "Сохранить и выйти"@,
{
    vec![
        "Просмотр текущей конфигурации",
        "Настройка пула провайдеров",
        "Изменение лимитов безопасности",
        "Сохранить и выйти",
    ]
}

/// What an item of the main menu leads to; a menu that was left without a
/// choice saves.
pub fn main_choice(choice: Option<usize>) -> (r: MainChoice)
    ensures
        r == match choice {
            Some(0) => MainChoice::View,
            Some(1) => MainChoice::Providers,
            Some(2) => MainChoice::Limits,
            Some(3) => MainChoice::Save,
            None => MainChoice::Save,
            _ => MainChoice::Leave,
        },
{
    match choice {
        Some(n) => {
            if n == 0 {
                MainChoice::View
            } else if n == 1 {
                MainChoice::Providers
            } else if n == 2 {
                MainChoice::Limits
            } else if n == 3 {
                MainChoice::Save
            } else {
                MainChoice::Leave
            }
        },
        None => MainChoice::Save,
    }
}

/// A key that can be shown in part: its first eight bytes end between two
/// characters.
pub open spec fn maskable(key: Option<Seq<char>>) -> bool {
    key matches Some(k) ==> can_cut(k, 8)
}

/// A key as it is shown: the beginning of a long one, nothing of a short one.
pub open spec fn masked(key: Option<Seq<char>>) -> Seq<char> {
    match key {
        Some(k) => if byte_len(k) > 8 {
            byte_prefix(k, 8) + "…"@
        } else {
            "****"@
        },
        None => "—"@,
    }
}

/// A key as it is shown.
pub fn mask_key(key: &Option<String>) -> (r: String)
    requires
        maskable(opt_text(*key)),
    ensures
        r@ == masked(opt_text(*key)),
{
    match key {
        Some(k) => {
            if longer_than(k.as_str(), 8) {
                let mut s = cut_bytes(k.as_str(), 8);
                s.append("…");
                s
            } else {
                "****".to_string()
            }
        },
        None => "—".to_string(),
    }
}

/// `✓` or `—`.
pub open spec fn tick(on: bool) -> Seq<char> {
    if on {
        "✓"@
    } else {
        "—"@
    }
}

fn tick_of(on: bool) -> (r: &'static str)
    ensures
        r@ == tick(on),
{
    if on {
        "✓"
    } else {
        "—"
    }
}

/// A provider in a list: number, name and model.
pub open spec fn listed(i: int, p: ProviderConfigView) -> Seq<char> {
    decimal((i + 1) as nat) + ". "@ + p.name + " ("@ + p.model_name + ")"@
}

fn list_entry(i: usize, p: &ProviderConfig) -> (r: String)
    requires
        i < usize::MAX,
    ensures
        r@ == listed(i as int, p@),
{
    let mut s = show_usize(i + 1);
    s.append(". ");
    s.append(p.name.as_str());
    s.append(" (");
    s.append(p.model_name.as_str());
    s.append(")");
    s
}

/// The three lines of a provider in the overview.
pub open spec fn provider_lines(i: int, p: ProviderConfigView) -> Seq<Seq<char>> {
    seq![
        "  ║    "@ + listed(i, p),
        "  ║        URL: "@ + p.base_url,
        "  ║        Key: "@ + masked(p.api_key),
    ]
}

pub open spec fn all_provider_lines(pool: Seq<ProviderConfigView>) -> Seq<Seq<char>>
    decreases pool.len(),
{
    if pool.len() == 0 {
        Seq::empty()
    } else {
        all_provider_lines(pool.drop_last()) + provider_lines(pool.len() - 1, pool.last())
    }
}

/// The overview, line by line.
pub open spec fn overview(cfg: SystemConfigView) -> Seq<Seq<char>> {
    seq![
        "  ╔══════════════════════════════════════════════╗"@,
        "  ║         Текущая конфигурация                 ║"@,
        "  ╠══════════════════════════════════════════════╣"@,
        "  ║  Провайдеры ("@ + decimal(cfg.provider_pool.len()) + "):"@,
    ] + all_provider_lines(cfg.provider_pool) + seq![
        "  ║"@,
        "  ║  Max steps:         "@ + decimal(cfg.max_steps_limit as nat),
        "  ║  Compaction порог:  "@ + decimal(cfg.token_compaction_threshold as nat),
        "  ║  Safety auto-approve: "@ + tick(cfg.safety_auto_approve),
        "  ╚══════════════════════════════════════════════╝"@,
    ]
}

/// What an item of the provider menu leads to.
#[derive(Debug, Clone, Copy, PartialEq, Eq, Structural)]
pub enum PoolChoice {
    Add,
    Edit(usize),
    Back,
}

/// A change to a provider.
#[derive(Debug, PartialEq, Eq)]
pub enum ProviderEdit {
    Name(String),
    BaseUrl(String),
    Model(String),
    /// An empty key removes the key.
    ApiKey(String),
    Embeddings(bool),
}

/// What an item of the menu for one provider leads to.
#[derive(Debug, Clone, Copy, PartialEq, Eq, Structural)]
pub enum ProviderChoice {
    Name,
    BaseUrl,
    Model,
    ApiKey,
    Embeddings,
    Back,
}

/// What an item of the menu for one provider leads to; a menu that was left
/// without a choice goes back.
pub fn provider_choice(choice: Option<usize>) -> (r: ProviderChoice)
    ensures
        r == match choice {
            Some(0) => ProviderChoice::Name,
            Some(1) => ProviderChoice::BaseUrl,
            Some(2) => ProviderChoice::Model,
            Some(3) => ProviderChoice::ApiKey,
            Some(4) => ProviderChoice::Embeddings,
            _ => ProviderChoice::Back,
        },
{
    match choice {
        Some(n) => {
            if n == 0 {
                ProviderChoice::Name
            } else if n == 1 {
                ProviderChoice::BaseUrl
            } else if n == 2 {
                ProviderChoice::Model
            } else if n == 3 {
                ProviderChoice::ApiKey
            } else if n == 4 {
                ProviderChoice::Embeddings
            } else {
                ProviderChoice::Back
            }
        },
        None => ProviderChoice::Back,
    }
}

/// What an item of the menu for the limits leads to.
#[derive(Debug, Clone, Copy, PartialEq, Eq, Structural)]
pub enum LimitChoice {
    MaxSteps,
    Compaction,
    AutoApprove,
    Back,
}

/// What an item of the menu for the limits leads to; a menu that was left
/// without a choice goes back.
pub fn limit_choice(choice: Option<usize>) -> (r: LimitChoice)
    ensures
        r == match choice {
            Some(0) => LimitChoice::MaxSteps,
            Some(1) => LimitChoice::Compaction,
            Some(2) => LimitChoice::AutoApprove,
            _ => LimitChoice::Back,
        },
{
    match choice {
        Some(n) => {
            if n == 0 {
                LimitChoice::MaxSteps
            } else if n == 1 {
                LimitChoice::Compaction
            } else if n == 2 {
                LimitChoice::AutoApprove
            } else {
                LimitChoice::Back
            }
        },
        None => LimitChoice::Back,
    }
}

/// The provider after a change.
pub open spec fn edited(p: ProviderConfigView, edit: ProviderEdit) -> ProviderConfigView {
    match edit {
        ProviderEdit::Name(s) => ProviderConfigView { name: s@, ..p },
        ProviderEdit::BaseUrl(s) => ProviderConfigView { base_url: s@, ..p },
        ProviderEdit::Model(s) => ProviderConfigView { model_name: s@, ..p },
        ProviderEdit::ApiKey(s) => ProviderConfigView { api_key: nonempty(Some(s@)), ..p },
        ProviderEdit::Embeddings(on) => ProviderConfigView { supports_embeddings: on, ..p },
    }
}

fn key_of(s: String) -> (r: Option<String>)
    ensures
        opt_text(r) == nonempty(Some(s@)),
{
    if s.as_str().is_empty() {
        None
    } else {
        Some(s)
    }
}

/// The items of the menu for one provider.
pub open spec fn provider_items(p: ProviderConfigView) -> Seq<Seq<char>> {
    seq![
        "1. Имя:        "@ + p.name,
        "2. Base URL:   "@ + p.base_url,
        "3. Model name: "@ + p.model_name,
        "4. API-ключ:   "@ + masked(p.api_key),
        "5. Embeddings: "@ + if p.supports_embeddings {
            "да"@
        } else {
            "нет"@
        },
        "← Назад"@,
    ]
}

/// The items of the menu for the limits.
pub open spec fn limit_items(cfg: SystemConfigView) -> Seq<Seq<char>> {
    seq![
        "1. Max steps limit (0 = безлимитно): "@ + decimal(cfg.max_steps_limit as nat),
        "2. Compaction порог (макс. сообщений): "@ + decimal(
            cfg.token_compaction_threshold as nat,
        ),
        "3. Safety auto-approve: "@ + tick(cfg.safety_auto_approve),
        "← Назад"@,
    ]
}

fn line(a: &str, b: &str) -> (r: String)
    ensures
        r@ == a@ + b@,
{
    let mut s = a.to_string();
    s.append(b);
    s
}

impl ProviderConfig {
    /// Change the provider.
    pub fn edit(&mut self, edit: ProviderEdit)
        ensures
            final(self)@ == edited(old(self)@, edit),
    {
        match edit {
            ProviderEdit::Name(s) => {
                self.name = s;
            },
            ProviderEdit::BaseUrl(s) => {
                self.base_url = s;
            },
            ProviderEdit::Model(s) => {
                self.model_name = s;
            },
            ProviderEdit::ApiKey(s) => {
                self.api_key = key_of(s);
            },
            ProviderEdit::Embeddings(on) => {
                self.supports_embeddings = on;
            },
        }
    }

    /// The items of the menu for this provider.
    pub fn menu(&self) -> (r: Vec<String>)
        requires
            maskable(self@.api_key),
        ensures
            texts(r@) == provider_items(self@),
    {
        let embeddings = if self.supports_embeddings {
            "да"
        } else {
            "нет"
        };
        let r: Vec<String> = vec![
            line("1. Имя:        ", self.name.as_str()),
            line("2. Base URL:   ", self.base_url.as_str()),
            line("3. Model name: ", self.model_name.as_str()),
            line("4. API-ключ:   ", mask_key(&self.api_key).as_str()),
            line("5. Embeddings: ", embeddings),
            "← Назад".to_string(),
        ];
        assert(texts(r@) =~= provider_items(self@));
        r
    }
}

impl SystemConfig {
    /// The overview, line by line.
    pub fn view_lines(&self) -> (r: Vec<String>)
        requires
            forall|i: int|
                0 <= i < self@.provider_pool.len() ==> maskable(
                    (#[trigger] self@.provider_pool[i]).api_key,
                ),
        ensures
            texts(r@) == overview(self@),
    {
        let ghost pool = self@.provider_pool;
        let mut out: Vec<String> = Vec::new();
        out.push("  ╔══════════════════════════════════════════════╗".to_string());
        out.push("  ║         Текущая конфигурация                 ║".to_string());
        out.push("  ╠══════════════════════════════════════════════╣".to_string());
        let mut head = "  ║  Провайдеры (".to_string();
        head.append(show_usize(self.provider_pool.len()).as_str());
        head.append("):");
        out.push(head);
        let ghost front = texts(out@);
        assert(front =~= seq![
            "  ╔══════════════════════════════════════════════╗"@,
            "  ║         Текущая конфигурация                 ║"@,
            "  ╠══════════════════════════════════════════════╣"@,
            "  ║  Провайдеры ("@ + decimal(pool.len()) + "):"@,
        ]);
        let mut i: usize = 0;
        assert(pool.take(0) =~= Seq::empty());
        assert(front + Seq::<Seq<char>>::empty() =~= front);
        while i < self.provider_pool.len()
            invariant
                i <= self.provider_pool@.len(),
                pool == config_views(self.provider_pool@),
                forall|k: int| 0 <= k < pool.len() ==> maskable((#[trigger] pool[k]).api_key),
                texts(out@) == front + all_provider_lines(pool.take(i as int)),
            decreases self.provider_pool@.len() - i,
        {
            let p = &self.provider_pool[i];
            let ghost before = out@;
            proof {
                assert(pool[i as int] == p@);
                assert(pool.take(i + 1).drop_last() =~= pool.take(i as int));
                assert(pool.take(i + 1).last() == p@);
            }
            out.push(line("  ║    ", list_entry(i, p).as_str()));
            out.push(line("  ║        URL: ", p.base_url.as_str()));
            out.push(line("  ║        Key: ", mask_key(&p.api_key).as_str()));
            assert(texts(out@) =~= texts(before) + provider_lines(i as int, p@));
            assert(texts(out@) =~= front + all_provider_lines(pool.take(i + 1)));
            i += 1;
        }
        assert(pool.take(i as int) =~= pool);
        let ghost middle = out@;
        out.push("  ║".to_string());
        out.push(line("  ║  Max steps:         ", show_usize(self.max_steps_limit).as_str()));
        out.push(
            line("  ║  Compaction порог:  ", show_usize(self.token_compaction_threshold).as_str()),
        );
        out.push(line("  ║  Safety auto-approve: ", tick_of(self.safety_auto_approve)));
        out.push("  ╚══════════════════════════════════════════════╝".to_string());
        assert(texts(out@) =~= texts(middle) + seq![
            "  ║"@,
            "  ║  Max steps:         "@ + decimal(self.max_steps_limit as nat),
            "  ║  Compaction порог:  "@ + decimal(self.token_compaction_threshold as nat),
            "  ║  Safety auto-approve: "@ + tick(self.safety_auto_approve),
            "  ╚══════════════════════════════════════════════╝"@,
        ]);
        out
    }

    /// The items of the provider menu: add one, the providers, go back.
    pub fn pool_menu(&self) -> (r: Vec<String>)
        ensures
            texts(r@) == seq!["+ Добавить провайдера"@] + Seq::new(
                self@.provider_pool.len(),
                |i: int| listed(i, self@.provider_pool[i]),
            ) + seq!["← Назад"@],
    {
        let ghost pool = self@.provider_pool;
        let mut out: Vec<String> = Vec::new();
        out.push("+ Добавить провайдера".to_string());
        let mut i: usize = 0;
        while i < self.provider_pool.len()
            invariant
                i <= self.provider_pool@.len(),
                pool == config_views(self.provider_pool@),
                out@.len() == i + 1,
                out@[0]@ == "+ Добавить провайдера"@,
                forall|k: int| 0 <= k < i ==> (#[trigger] out@[k + 1])@ == listed(k, pool[k]),
            decreases self.provider_pool@.len() - i,
        {
            assert(pool[i as int] == self.provider_pool@[i as int]@);
            out.push(list_entry(i, &self.provider_pool[i]));
            i += 1;
        }
        out.push("← Назад".to_string());
        proof {
            let want = seq!["+ Добавить провайдера"@] + Seq::new(
                pool.len(),
                |i: int| listed(i, pool[i]),
            ) + seq!["← Назад"@];
            assert forall|k: int| 0 <= k < want.len() implies #[trigger] texts(out@)[k]
                == want[k] by {
                if 0 < k < want.len() - 1 {
                    assert(out@[(k - 1) + 1]@ == listed(k - 1, pool[k - 1]));
                }
            }
            assert(texts(out@) =~= want);
        }
        out
    }

    /// What an item of the provider menu leads to; a menu that was left
    /// without a choice goes back.
    pub fn pool_choice(&self, choice: Option<usize>) -> (r: PoolChoice)
        ensures
            r == match choice {
                Some(n) => if n == 0 {
                    PoolChoice::Add
                } else if n <= self@.provider_pool.len() {
                    PoolChoice::Edit((n - 1) as usize)
                } else {
                    PoolChoice::Back
                },
                None => PoolChoice::Back,
            },
    {
        match choice {
            Some(n) => {
                if n == 0 {
                    PoolChoice::Add
                } else if n <= self.provider_pool.len() {
                    PoolChoice::Edit(n - 1)
                } else {
                    PoolChoice::Back
                }
            },
            None => PoolChoice::Back,
        }
    }

    /// Add a provider; an empty key is no key.
    pub fn add_provider(
        &mut self,
        name: String,
        base_url: String,
        model_name: String,
        api_key: String,
        supports_embeddings: bool,
    )
        ensures
            final(self)@ == (SystemConfigView {
                provider_pool: old(self)@.provider_pool.push(
                    ProviderConfigView {
                        name: name@,
                        base_url: base_url@,
                        model_name: model_name@,
                        api_key: nonempty(Some(api_key@)),
                        supports_embeddings,
                        kind: ProviderKind::OpenAI,
                    },
                ),
                ..old(self)@
            }),
    {
        let ghost before = self.provider_pool@;
        let p = ProviderConfig {
            name,
            base_url,
            model_name,
            api_key: key_of(api_key),
            supports_embeddings,
            kind: ProviderKind::OpenAI,
        };
        self.provider_pool.push(p);
        assert(config_views(self.provider_pool@) =~= config_views(before).push(p@));
    }

    /// The items of the menu for the limits.
    pub fn limits_menu(&self) -> (r: Vec<String>)
        ensures
            texts(r@) == limit_items(self@),
    {
        let r: Vec<String> = vec![
            line(
                "1. Max steps limit (0 = безлимитно): ",
                show_usize(self.max_steps_limit).as_str(),
            ),
            line(
                "2. Compaction порог (макс. сообщений): ",
                show_usize(self.token_compaction_threshold).as_str(),
            ),
            line("3. Safety auto-approve: ", tick_of(self.safety_auto_approve)),
            "← Назад".to_string(),
        ];
        assert(texts(r@) =~= limit_items(self@));
        r
    }

    /// Set the limit of steps to a number in writing; anything else changes
    /// nothing. Tells whether it was a number.
    pub fn set_max_steps(&mut self, input: &str) -> (r: bool)
        ensures
            match unsigned_number(input@, usize::MAX as nat) {
                Some(n) => r && final(self)@ == (SystemConfigView {
                    max_steps_limit: n as usize,
                    ..old(self)@
                }),
                None => !r && final(self)@ == old(self)@,
            },
    {
        match read_number(input, usize::MAX as u64) {
            Some(n) => {
                self.max_steps_limit = n as usize;
                true
            },
            None => false,
        }
    }

    /// Set the compaction threshold to a number in writing, at least five;
    /// anything else changes nothing. Tells whether it was a number.
    pub fn set_compaction_threshold(&mut self, input: &str) -> (r: bool)
        ensures
            match unsigned_number(input@, usize::MAX as nat) {
                Some(n) => r && final(self)@ == (SystemConfigView {
                    token_compaction_threshold: if n < 5 {
                        5
                    } else {
                        n as usize
                    },
                    ..old(self)@
                }),
                None => !r && final(self)@ == old(self)@,
            },
            r ==> final(self).token_compaction_threshold >= 5,
    {
        match read_number(input, usize::MAX as u64) {
            Some(n) => {
                self.token_compaction_threshold = if n < 5 {
                    5
                } else {
                    n as usize
                };
                true
            },
            None => false,
        }
    }

    /// Switch the automatic approval on or off.
    pub fn toggle_auto_approve(&mut self)
        ensures
            final(self)@ == (SystemConfigView {
                safety_auto_approve: !old(self)@.safety_auto_approve,
                ..old(self)@
            }),
    {
        self.safety_auto_approve = !self.safety_auto_approve;
    }
}

// ---------------------------------------------------------------------------
// Laws
// ---------------------------------------------------------------------------

/// Without a file the configuration is the local Ollama alone, no limit of
/// steps, compaction above fifteen messages, and no approval without asking.
pub proof fn law_default_config(env: ProviderEnv)
    ensures
        ({
            let c = default_config(env);
            let p = c.provider_pool[0];
            &&& c.max_steps_limit == 0
            &&& c.token_compaction_threshold == 15
            &&& !c.safety_auto_approve
            &&& c.provider_pool.len() == 1
            &&& p.name == "ollama-local"@
            &&& p.base_url == (if env.ollama_base_url is Some {
                env.ollama_base_url->0@
            } else {
                "http://localhost:11434"@
            })
            &&& p.model_name == (if env.model is Some {
                env.model->0@
            } else {
                "qwen2.5:3b"@
            })
            &&& p.api_key == (if env.ollama_api_key is Some && env.ollama_api_key->0@.len() > 0 {
                Some(env.ollama_api_key->0@)
            } else {
                None
            })
            &&& p.supports_embeddings
            &&& p.kind == ProviderKind::OpenAI
        }),
{
}

/// A change concerns one setting of a provider and leaves all others alone; an
/// empty key removes the key.
pub proof fn law_edit(p: ProviderConfigView, s: String, on: bool)
    ensures
        edited(p, ProviderEdit::Name(s)) == (ProviderConfigView { name: s@, ..p }),
        edited(p, ProviderEdit::BaseUrl(s)) == (ProviderConfigView { base_url: s@, ..p }),
        edited(p, ProviderEdit::Model(s)) == (ProviderConfigView { model_name: s@, ..p }),
        s@.len() > 0 ==> edited(p, ProviderEdit::ApiKey(s)) == (ProviderConfigView {
            api_key: Some(s@),
            ..p
        }),
        s@.len() == 0 ==> edited(p, ProviderEdit::ApiKey(s)) == (ProviderConfigView {
            api_key: None,
            ..p
        }),
        edited(p, ProviderEdit::Embeddings(on)) == (ProviderConfigView {
            supports_embeddings: on,
            ..p
        }),
{
}

/// Of a key at most its first eight bytes are shown, and nothing at all of one
/// that is no longer.
pub proof fn law_mask(front: Seq<char>, rest: Seq<char>)
    requires
        byte_len(front) == 8,
    ensures
        rest.len() > 0 ==> masked(Some(front + rest)) == front + "…"@,
        masked(Some(front)) == "****"@,
        byte_len(rest) <= 8 ==> masked(Some(rest)) == "****"@,
        masked(None) == "—"@,
        maskable(Some(front + rest)),
        maskable(None),
{
    law_cut_bytes(front, rest);
    law_utf8(front, rest, ' ');
    if rest.len() > 0 {
        lemma_byte_len_monotone(rest, 0, rest.len() as int);
        assert(rest.take(rest.len() as int) =~= rest);
    }
}

/// The menus show every setting in its line.
pub proof fn law_menus(p: ProviderConfigView, cfg: SystemConfigView)
    ensures
        provider_items(p).len() == 6,
        provider_items(p)[0] == "1. Имя:        "@ + p.name,
        provider_items(p)[1] == "2. Base URL:   "@ + p.base_url,
        provider_items(p)[2] == "3. Model name: "@ + p.model_name,
        provider_items(p)[3] == "4. API-ключ:   "@ + masked(p.api_key),
        p.supports_embeddings ==> provider_items(p)[4] == "5. Embeddings: "@ + "да"@,
        !p.supports_embeddings ==> provider_items(p)[4] == "5. Embeddings: "@ + "нет"@,
        provider_items(p)[5] == "← Назад"@,
        limit_items(cfg).len() == 4,
        limit_items(cfg)[0] == "1. Max steps limit (0 = безлимитно): "@ + decimal(
            cfg.max_steps_limit as nat,
        ),
        limit_items(cfg)[1] == "2. Compaction порог (макс. сообщений): "@ + decimal(
            cfg.token_compaction_threshold as nat,
        ),
        cfg.safety_auto_approve ==> limit_items(cfg)[2] == "3. Safety auto-approve: "@ + "✓"@,
        !cfg.safety_auto_approve ==> limit_items(cfg)[2] == "3. Safety auto-approve: "@ + "—"@,
        limit_items(cfg)[3] == "← Назад"@,
{
}

/// The overview shows every provider in three lines, numbered from one, and
/// then the limits.
pub proof fn law_overview(cfg: SystemConfigView, pool: Seq<ProviderConfigView>, p: ProviderConfigView)
    ensures
        overview(cfg) == seq![
            "  ╔══════════════════════════════════════════════╗"@,
            "  ║         Текущая конфигурация                 ║"@,
            "  ╠══════════════════════════════════════════════╣"@,
            "  ║  Провайдеры ("@ + decimal(cfg.provider_pool.len()) + "):"@,
        ] + all_provider_lines(cfg.provider_pool) + seq![
            "  ║"@,
            "  ║  Max steps:         "@ + decimal(cfg.max_steps_limit as nat),
            "  ║  Compaction порог:  "@ + decimal(cfg.token_compaction_threshold as nat),
            "  ║  Safety auto-approve: "@ + (if cfg.safety_auto_approve {
                "✓"@
            } else {
                "—"@
            }),
            "  ╚══════════════════════════════════════════════╝"@,
        ],
        all_provider_lines(Seq::empty()) == Seq::<Seq<char>>::empty(),
        all_provider_lines(pool.push(p)) == all_provider_lines(pool) + seq![
            "  ║    "@ + (decimal(pool.len() + 1) + ". "@ + p.name + " ("@ + p.model_name + ")"@),
            "  ║        URL: "@ + p.base_url,
            "  ║        Key: "@ + masked(p.api_key),
        ],
{
    assert(pool.push(p).drop_last() =~= pool);
}

/// What is seen of a configuration is what it holds; an empty key is none.
pub proof fn law_system_view(c: SystemConfig, s: Seq<char>)
    ensures
        c@.provider_pool == config_views(c.provider_pool@),
        c@.max_steps_limit == c.max_steps_limit,
        c@.token_compaction_threshold == c.token_compaction_threshold,
        c@.safety_auto_approve == c.safety_auto_approve,
        nonempty(None) is None,
        s.len() == 0 ==> nonempty(Some(s)) is None,
        s.len() > 0 ==> nonempty(Some(s)) == Some(s),
{
}

} // verus!
