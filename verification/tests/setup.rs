use cowboy_cli::firstrun::{
    check, offers_init, record_config, report, report_with, Found, Gap, Loaded, Mark, Palette,
};
use cowboy_cli::init::{
    ensure_gitignore, next_step, overwritten, write_action, write_words, Write,
};
use cowboy_cli::models::{
    add, added_lines, apply_setup, available_line, catalogue, catalogue_line, check_default, choose_provider,
    default_line, default_set_line, effort_word, new_model, parse_positive_u32, parse_reasoning, pick_model,
    replace_question, replacements, resolves_line, sole_provider, valid_name, validate_base_url, with_default,
    Defaults, ModelDef, ModelsConfig, Pick, Provider, ProvidersConfig, ReasoningEffort, SetupPlan,
    Tuning,
};
use cowboy_cli::registry::Registry;
use cowboy_cli::AlreadyReported;

#[test]
fn a_missing_project_names_the_directory_and_the_command() {
    let root = "/home/dev/proj";
    let gaps = vec![Gap::Project { root: root.into() }];
    let out = report(root, &gaps);
    assert!(out.contains("/home/dev/proj"), "{out}");
    assert!(out.contains("cowboy init"), "{out}");
    // A single gap needs no ordering advice.
    assert!(!out.contains("in that order"), "{out}");
}

#[test]
fn every_gap_is_reported_at_once_with_an_order_to_fix_them() {
    let root = "/p";
    let out = report(root, &vec![Gap::Project { root: root.into() }, Gap::Provider]);
    let init = out.find("cowboy init").expect("init remedy");
    let setup = out.find("cowboy models setup").expect("setup remedy");
    assert!(init < setup, "project comes first:\n{out}");
    assert!(out.contains("in that order"), "{out}");
}

#[test]
fn invalid_config_is_never_reported_as_absent_or_sent_to_setup() {
    let root = "/p";
    let path = "/p/.cowboy/models.yaml";
    let gaps = vec![Gap::InvalidConfig {
        name: "project models.yaml".into(),
        path: path.into(),
        detail: "failed to parse".into(),
    }];
    let out = report(root, &gaps);
    assert!(out.contains("invalid project models.yaml"), "{out}");
    assert!(out.contains(&format!("fix {path}")), "{out}");
    assert!(!out.contains("cowboy init"), "{out}");
    assert!(!out.contains("cowboy models setup"), "{out}");
}

#[test]
fn independent_invalid_configs_are_all_recorded() {
    let mut gaps = Vec::new();
    let first: Loaded<()> = Loaded::Invalid("bad yaml".into());
    let second: Loaded<()> = Loaded::Invalid("unknown field".into());
    record_config(&mut gaps, "providers.yaml", "/home/providers.yaml", first);
    record_config(&mut gaps, "project models.yaml", "/p/models.yaml", second);
    assert_eq!(gaps.len(), 2);
    assert!(gaps.iter().all(|gap| matches!(gap, Gap::InvalidConfig { .. })));
}

fn complete_setup() -> Found {
    Found {
        root: "/p".into(),
        security_path: "/p/.cowboy/security.yaml".into(),
        security: Loaded::Value(()),
        agent_path: "/p/.cowboy/agent.yaml".into(),
        agent: Loaded::Absent,
        providers: Some(("/h/providers.yaml".into(), Loaded::Value(1))),
        user_models: Some(("/h/models.yaml".into(), Loaded::Absent)),
        project_models_path: "/p/.cowboy/models.yaml".into(),
        project_models: Loaded::Absent,
        model_error: None,
    }
}

fn said(f: Found) -> Vec<(String, String)> {
    check(f).iter().map(|g| g.line()).collect()
}

#[test]
fn a_file_that_cannot_be_used_is_named_with_its_path() {
    let gaps = check(Found { security: Loaded::Invalid("bad: yaml".into()), ..complete_setup() });
    assert_eq!(
        gaps,
        [Gap::InvalidConfig {
            name: "security.yaml".into(),
            path: "/p/.cowboy/security.yaml".into(),
            detail: "bad: yaml".into(),
        }]
    );
}

#[test]
fn each_gap_of_a_start_is_found_in_its_order() {
    assert!(said(complete_setup()).is_empty());
    let all = said(Found {
        security: Loaded::Absent,
        agent: Loaded::Invalid("a".into()),
        providers: None,
        user_models: Some(("/h/models.yaml".into(), Loaded::Invalid("u".into()))),
        project_models: Loaded::Invalid("m".into()),
        ..complete_setup()
    });
    let whats: Vec<&str> = all.iter().map(|(w, _)| w.as_str()).collect();
    assert_eq!(
        whats,
        [
            "no .cowboy/ config in /p",
            "invalid agent.yaml: a",
            "invalid providers.yaml: cannot resolve the home config directory",
            "invalid user models.yaml: u",
            "invalid project models.yaml: m",
        ]
    );
    assert_eq!(all[2].1, "fix ~/.config/cowboy/providers.yaml");
    let none = said(Found {
        providers: Some(("/h/providers.yaml".into(), Loaded::Value(0))),
        ..complete_setup()
    });
    assert_eq!(none, [("no model provider configured".to_string(), "cowboy models setup".to_string())]);
    let unusable = said(Found { model_error: Some("no default".into()), ..complete_setup() });
    assert_eq!(unusable[0].0, "a provider is configured, but no usable model (no default)");
    assert_eq!(unusable[0].1, "cowboy models add <model-id>");
    let bad = said(Found { security: Loaded::Invalid("s".into()), ..complete_setup() });
    assert_eq!(bad[0].0, "invalid security.yaml: s");
}

#[test]
fn a_report_lines_its_remedies_up() {
    let gaps = vec![Gap::Provider, Gap::Model { detail: "none".into() }];
    assert_eq!(
        report("/p", &gaps),
        "cowboy can't start in /p\n  ✗ no model provider configured  →  cowboy models setup\n  ✗ none                          →  cowboy models add <model-id>\n\nrun them in that order, then `cowboy` again\n"
    );
    let mark = |a: &str| Mark { before: a.to_string(), after: format!("/{a}") };
    let p = Palette { error: mark("e"), bold: mark("b"), dim: mark("d") };
    assert_eq!(
        report_with(&p, "/p", &vec![Gap::Provider]),
        "ecowboy can't start in/e b/p/b\n  e✗/e no model provider configured  →  bcowboy models setup/b\n"
    );
}

#[test]
fn only_a_missing_project_in_a_repository_is_set_up_at_once() {
    let missing = vec![Gap::Project { root: "/p".into() }];
    assert!(offers_init(&missing, true, true));
    assert!(!offers_init(&missing, false, true));
    assert!(!offers_init(&missing, true, false));
    assert!(!offers_init(&vec![Gap::Provider], true, true));
    assert!(!offers_init(&vec![Gap::Project { root: "/p".into() }, Gap::Provider], true, true));
    assert_eq!(AlreadyReported.message(), "cannot continue (see the report above)");
}

#[test]
fn gitignore_gets_what_it_lacks_and_no_more() {
    let full = ensure_gitignore("").unwrap();
    assert_eq!(
        full,
        "\n# cowboy\n.env\n.cowboy/sessions/\n.cowboy/mise/\n.cowboy/ranches/*/events.jsonl\n.cowboy/ranches/*/workstreams/\n/target\n"
    );
    assert_eq!(ensure_gitignore(&full), None);
    // A line that is not ended is ended, and what is listed is not listed again.
    let out = ensure_gitignore("  .env  \n/target").unwrap();
    assert!(out.starts_with("  .env  \n/target\n\n# cowboy\n.cowboy/sessions/\n"), "{out}");
    assert_eq!(out.matches(".env").count(), 1);
    assert_eq!(out.matches("/target").count(), 1);
    assert_eq!(ensure_gitignore(&out), None);
    // A carriage return at the end makes no difference.
    let out = ensure_gitignore(".env\r").unwrap();
    assert!(!out.contains("\n.env\n"), "{out}");
    assert_eq!(ensure_gitignore(&out), None);
}

#[test]
fn files_are_overwritten_only_when_asked() {
    assert_eq!(write_action(true, false), Write::Skip);
    assert_eq!(write_action(true, true), Write::Rewrite);
    assert_eq!(write_action(false, false), Write::Create);
    assert_eq!(write_words(Write::Skip, "a").1, "a (exists; use --force to overwrite)");
    assert_eq!(write_words(Write::Rewrite, "a"), ("rewrote", "a".to_string()));
    assert_eq!(write_words(Write::Create, "a"), ("created", "a".to_string()));
    let files = vec![("a".to_string(), true), ("b".to_string(), false), ("c".to_string(), true)];
    assert_eq!(overwritten(&files, true), ["a", "c"]);
    assert!(overwritten(&files, false).is_empty());
    assert!(next_step(false).contains("cowboy models setup"));
    assert!(!next_step(true).contains("cowboy models setup"));
}

fn provider(url: &str) -> Provider {
    Provider { base_url: url.into(), api_key: "secret".into(), headers: Vec::new() }
}

fn model(provider_name: &str, id: &str) -> ModelDef {
    ModelDef {
        provider: provider_name.into(),
        model: id.into(),
        temperature_bits: 0.2f32.to_bits(),
        max_tokens: 8_192,
        context_window: 200_000,
        reasoning_effort: None,
        top_p_bits: None,
        stop: Vec::new(),
        extra: Vec::new(),
        input_cost_bits: None,
        output_cost_bits: None,
        cached_input_cost_bits: None,
        headers: Vec::new(),
        anthropic_cache: false,
        stream_idle_timeout_seconds: None,
    }
}

fn plan(provider_name: &str, model_name: &str) -> SetupPlan {
    SetupPlan {
        provider_name: provider_name.into(),
        provider: provider("https://new.example/v1"),
        model_name: model_name.into(),
        model: model(provider_name, "new/model"),
    }
}

fn providers_with(name: &str) -> ProvidersConfig {
    ProvidersConfig {
        providers: Registry::new().insert(name.to_string(), provider("https://old.example/v1")),
    }
}

fn models_with(name: &str, default: Option<&str>) -> ModelsConfig {
    ModelsConfig {
        default: default.map(String::from),
        models: Registry::new().insert(name.to_string(), model(name, "old/model")),
    }
}

#[test]
fn setup_merge_preserves_unrelated_entries_and_default() {
    let (updated_providers, updated_models) =
        apply_setup(providers_with("old"), models_with("old", Some("old")), plan("new", "new"));
    assert!(updated_providers.providers.contains("old"));
    assert!(updated_providers.providers.contains("new"));
    assert!(updated_models.models.contains("old"));
    assert!(updated_models.models.contains("new"));
    assert_eq!(updated_models.default.as_deref(), Some("old"));
}

#[test]
fn replacement_detection_names_each_collision() {
    let found =
        replacements(&providers_with("same"), &models_with("same", None), &plan("same", "same"));
    assert_eq!(found, ["provider `same`", "model `same`"]);
}

#[test]
fn whole_tuning_is_rejected_instead_of_defaulted() {
    assert!(parse_positive_u32("0").is_err());
    assert!(parse_positive_u32("many").is_err());
    assert_eq!(parse_positive_u32("4096").unwrap(), 4096);
}

#[test]
fn endpoint_validation_refuses_embedded_credentials() {
    let check = |url: &str| validate_base_url(&Ok(url.to_string()));
    assert!(check("not a url").is_err());
    assert!(check("file:///tmp/api").is_err());
    assert!(check("https://key@example.test/v1").is_err());
    assert!(check("https://example.test/v1").is_ok());
    // A password alone is one too, and what could not be expanded stays an error.
    assert!(check("https://:pw@example.test/v1").is_err());
    assert!(validate_base_url(&Err("no such variable".into())).is_err());
}

#[test]
fn names_and_efforts_are_checked() {
    assert!(valid_name("fast").is_ok());
    assert!(valid_name("").is_err());
    assert!(valid_name("  ").is_err());
    assert_eq!(parse_reasoning("HIGH").unwrap(), Some(ReasoningEffort::High));
    assert_eq!(effort_word("none").unwrap(), None);
    assert!(effort_word("huge").is_err());
}

#[test]
fn a_catalogue_is_picked_from_by_number_or_name() {
    let ids = catalogue(&vec![
        ("b".to_string(), true),
        ("embed".to_string(), false),
        ("a".to_string(), true),
    ]);
    assert_eq!(ids.len(), 2);
    assert!(!ids.contains(&"embed".to_string()));
    assert!(catalogue_line(0, "a").contains("a"));
    assert!(matches!(pick_model(&ids, "1"), Pick::Model(m) if m == ids[0]));
    assert!(matches!(pick_model(&ids, "9"), Pick::NoSuchNumber));
    assert!(matches!(pick_model(&ids, "own/model"), Pick::Model(m) if m == "own/model"));
    assert!(matches!(pick_model(&ids, ""), Pick::Missing));
}

fn defaults() -> Defaults {
    Defaults {
        name: "fast".into(),
        temperature_bits: 0.2f32.to_bits(),
        max_tokens: 100,
        context_window: 1000,
        reasoning_effort: Some(ReasoningEffort::Low),
        input_cost_bits: None,
        output_cost_bits: None,
        cached_input_cost_bits: None,
    }
}

fn tuning() -> Tuning {
    Tuning { temperature_bits: None, max_tokens: Some(7), context_window: None, reasoning: Some(None) }
}

#[test]
fn a_model_takes_its_tuning_before_its_defaults() {
    let m = new_model("p".into(), "id".into(), &defaults(), &tuning());
    assert_eq!(m.max_tokens, 7);
    assert_eq!(m.context_window, 1000);
    assert_eq!(m.reasoning_effort, None);
    assert_eq!(m.provider, "p");
}

#[test]
fn a_provider_is_chosen_where_there_is_but_one() {
    assert_eq!(sole_provider(&providers_with("only")).unwrap(), "only");
    assert!(sole_provider(&ProvidersConfig { providers: Registry::new() }).is_err());
    let two = ProvidersConfig {
        providers: providers_with("a").providers.insert("b".into(), provider("u")),
    };
    assert!(sole_provider(&two).is_err());
    assert_eq!(choose_provider(&two, &Some("b".into())).unwrap(), "b");
    assert!(choose_provider(&two, &Some("c".into())).is_err());
    let cfg = add(
        &providers_with("only"),
        ModelsConfig { default: None, models: Registry::new() },
        "id".into(),
        None,
        &None,
        &defaults(),
        &tuning(),
        true,
    )
    .unwrap();
    assert_eq!(cfg.default.as_deref(), Some("fast"));
    assert!(cfg.models.contains("fast"));
}

#[test]
fn a_default_must_be_a_model_that_there_is() {
    let user = Some(models_with("m", Some("m")));
    assert!(check_default(&user, &None, "m").is_ok());
    assert!(check_default(&user, &None, "other").is_err());
    assert_eq!(with_default(None, "m").default.as_deref(), Some("m"));
    assert!(default_line(&user, &None).contains("m"));
    let saved = "saved model `m` (id) to /m.yaml";
    assert_eq!(added_lines("m", "id", "/m.yaml", user.as_ref().unwrap()), [saved, "  (default model)"]);
    assert_eq!(added_lines("m", "id", "/m.yaml", &models_with("m", None)), [saved]);
    assert_eq!(default_set_line(true, "m", "/u"), "user default is now `m` (/u)");
    assert_eq!(default_set_line(false, "m", "/p"), "project default is now `m` (/p)");
    assert_eq!(resolves_line(&Ok(("id".into(), "u".into()))), "resolves to: id @ u");
    assert_eq!(resolves_line(&Err("no".into())), "note: no");
    assert!(replace_question(&vec!["provider `a`".into()]).contains("provider `a`"));
    assert!(available_line("x/chat", true, "chat", &vec![], false).is_some());
    assert!(available_line("x/embed", false, "embed", &vec![], false).is_none());
}
