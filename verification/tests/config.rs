use ai_agent::agent::Agent;
use ai_agent::config::{
    limit_choice, main_choice, main_menu, mask_key, provider_choice, LimitChoice, MainChoice,
    PoolChoice, ProviderChoice, ProviderEdit, SystemConfig,
};
use ai_agent::provider::{ProviderConfig, ProviderEnv, ProviderKind};
use ai_agent::safety::Stage;
use ai_agent::tool_routing::platform::DummyTool;

fn default_config() -> SystemConfig {
    SystemConfig::from_env(&ProviderEnv::default())
}

#[test]
fn the_default_configuration() {
    let c = default_config();
    assert_eq!(
        c.provider_pool,
        vec![ProviderConfig {
            name: "ollama-local".into(),
            base_url: "http://localhost:11434".into(),
            model_name: "qwen2.5:3b".into(),
            api_key: None,
            supports_embeddings: true,
            kind: ProviderKind::OpenAI,
        }]
    );
    assert_eq!(c.max_steps_limit, 0);
    assert_eq!(c.token_compaction_threshold, 15);
    assert!(!c.safety_auto_approve);
    let env = ProviderEnv { ollama_api_key: Some(String::new()), ..ProviderEnv::default() };
    assert_eq!(SystemConfig::from_env(&env), c);
    let env = ProviderEnv { ollama_api_key: Some("k".into()), ..ProviderEnv::default() };
    assert_eq!(SystemConfig::from_env(&env).provider_pool[0].api_key.as_deref(), Some("k"));
}

#[test]
fn a_file_goes_before_the_default() {
    let mut file = default_config();
    file.max_steps_limit = 7;
    let env = ProviderEnv::default();
    assert_eq!(SystemConfig::load(Some(file.clone()), &env), file);
    assert_eq!(SystemConfig::load(None, &env), default_config());
}

#[test]
fn the_environment_goes_before_the_file() {
    let c = default_config();
    let env = ProviderEnv { pool: Some("http://a".into()), ..ProviderEnv::default() };
    let names: Vec<String> = c.providers(&env).into_iter().map(|p| p.name).collect();
    assert_eq!(names, vec!["pool-0", "ollama-local"]);
    assert_eq!(c.providers(&ProviderEnv::default()), c.provider_pool);
}

#[test]
fn limits_reach_the_agent() {
    let mut c = default_config();
    c.max_steps_limit = 9;
    c.token_compaction_threshold = 33;
    c.safety_auto_approve = true;
    let mut agent: Agent<DummyTool, Stage> = Agent::<DummyTool, Stage>::new();
    c.apply_to(&mut agent);
    assert_eq!(agent.max_steps, 9);
    assert_eq!(agent.compaction_config.max_messages, 33);
    assert_eq!(agent.compaction_config.reserve_recent, 4);
    assert!(agent.safety_auto_approve);
}

#[test]
fn the_main_menu() {
    assert_eq!(main_menu().len(), 4);
    assert_eq!(main_choice(Some(0)), MainChoice::View);
    assert_eq!(main_choice(Some(1)), MainChoice::Providers);
    assert_eq!(main_choice(Some(2)), MainChoice::Limits);
    assert_eq!(main_choice(Some(3)), MainChoice::Save);
    assert_eq!(main_choice(None), MainChoice::Save);
    assert_eq!(main_choice(Some(4)), MainChoice::Leave);
}

#[test]
fn keys_are_masked() {
    assert_eq!(mask_key(&None), "—");
    assert_eq!(mask_key(&Some("12345678".into())), "****");
    assert_eq!(mask_key(&Some("123456789".into())), "12345678…");
    assert_eq!(mask_key(&Some("жжжжж".into())), "жжжж…");
}

#[test]
fn the_overview() {
    let mut c = default_config();
    c.provider_pool[0].api_key = Some("abcdefghij".into());
    assert_eq!(
        c.view_lines(),
        vec![
            "  ╔══════════════════════════════════════════════╗",
            "  ║         Текущая конфигурация                 ║",
            "  ╠══════════════════════════════════════════════╣",
            "  ║  Провайдеры (1):",
            "  ║    1. ollama-local (qwen2.5:3b)",
            "  ║        URL: http://localhost:11434",
            "  ║        Key: abcdefgh…",
            "  ║",
            "  ║  Max steps:         0",
            "  ║  Compaction порог:  15",
            "  ║  Safety auto-approve: —",
            "  ╚══════════════════════════════════════════════╝",
        ]
    );
}

#[test]
fn providers_are_added_and_edited() {
    let mut c = default_config();
    c.add_provider("n".into(), "u".into(), "m".into(), String::new(), true);
    assert_eq!(
        c.pool_menu(),
        vec!["+ Добавить провайдера", "1. ollama-local (qwen2.5:3b)", "2. n (m)", "← Назад"]
    );
    assert_eq!(c.pool_choice(Some(0)), PoolChoice::Add);
    assert_eq!(c.pool_choice(Some(2)), PoolChoice::Edit(1));
    assert_eq!(c.pool_choice(Some(3)), PoolChoice::Back);
    assert_eq!(c.pool_choice(None), PoolChoice::Back);
    let p = &mut c.provider_pool[1];
    assert_eq!(p.api_key, None);
    p.edit(ProviderEdit::Name("N".into()));
    p.edit(ProviderEdit::BaseUrl("U".into()));
    p.edit(ProviderEdit::Model("M".into()));
    p.edit(ProviderEdit::ApiKey("K".into()));
    p.edit(ProviderEdit::Embeddings(false));
    assert_eq!(
        p.menu(),
        vec![
            "1. Имя:        N",
            "2. Base URL:   U",
            "3. Model name: M",
            "4. API-ключ:   ****",
            "5. Embeddings: нет",
            "← Назад",
        ]
    );
    p.edit(ProviderEdit::ApiKey(String::new()));
    assert_eq!(p.api_key, None);
}

#[test]
fn limits_are_set() {
    let mut c = default_config();
    assert!(c.set_max_steps("12"));
    assert_eq!(c.max_steps_limit, 12);
    assert!(!c.set_max_steps("-1"));
    assert!(!c.set_max_steps(""));
    assert!(c.set_max_steps("+3"));
    assert_eq!(c.max_steps_limit, 3);
    assert!(c.set_compaction_threshold("2"));
    assert_eq!(c.token_compaction_threshold, 5);
    assert!(c.set_compaction_threshold("18446744073709551615"));
    assert!(!c.set_compaction_threshold("18446744073709551616"));
    c.set_compaction_threshold("20");
    c.toggle_auto_approve();
    assert_eq!(
        c.limits_menu(),
        vec![
            "1. Max steps limit (0 = безлимитно): 3",
            "2. Compaction порог (макс. сообщений): 20",
            "3. Safety auto-approve: ✓",
            "← Назад",
        ]
    );
}

#[test]
fn items_of_the_limits_menu_lead_somewhere() {
    assert_eq!(limit_choice(Some(0)), LimitChoice::MaxSteps);
    assert_eq!(limit_choice(Some(1)), LimitChoice::Compaction);
    assert_eq!(limit_choice(Some(2)), LimitChoice::AutoApprove);
    assert_eq!(limit_choice(Some(3)), LimitChoice::Back);
    assert_eq!(limit_choice(None), LimitChoice::Back);
}

#[test]
fn items_of_the_provider_menu_lead_somewhere() {
    let expected = [
        ProviderChoice::Name,
        ProviderChoice::BaseUrl,
        ProviderChoice::Model,
        ProviderChoice::ApiKey,
        ProviderChoice::Embeddings,
        ProviderChoice::Back,
    ];
    for (i, choice) in expected.iter().enumerate() {
        assert_eq!(provider_choice(Some(i)), *choice);
    }
    assert_eq!(provider_choice(None), ProviderChoice::Back);
}
