use gptcli::appconfig::{
    env_value, global_config_path, global_config_path_in, load_effective, project_config_path,
    ConfigError, Profile, RootCfg,
};
use gptcli::config_cmd::{init, show, ConfigSub};
use gptcli::context::AppCtx;
use gptcli::paths::{join_path, project_root};
use gptcli::set_cmd::{apply_setting, SetError};
use gptcli::state::{default_namespace, ProjectState, StateError};

fn profile(base: Option<&str>, key: Option<&str>, key_env: Option<&str>) -> Profile {
    Profile {
        provider: "openai".to_string(),
        api_base: base.map(|s| s.to_string()),
        api_key: key.map(|s| s.to_string()),
        api_key_env: key_env.map(|s| s.to_string()),
        model: None,
    }
}

fn env(pairs: &[(&str, &str)]) -> Vec<(String, String)> {
    pairs.iter().map(|(k, v)| (k.to_string(), v.to_string())).collect()
}

#[test]
fn paths_are_joined_with_a_slash() {
    assert_eq!(join_path("/home/a", "b/c"), "/home/a/b/c");
    assert_eq!(join_path("/home/a/", "b"), "/home/a/b");
    assert_eq!(join_path("", "b"), "b");
    assert_eq!(join_path("/home/a", "/etc"), "/etc");
    assert_eq!(join_path("/", "x"), "/x");
    assert_eq!(join_path("a", ""), "a/");
    for (root, rel) in [("/p/q", "r.txt"), ("/p/q/", ".gptcli/x"), ("", "r"), ("rel", "/abs")] {
        let std_join = std::path::Path::new(root).join(rel);
        assert_eq!(join_path(root, rel), std_join.to_string_lossy());
    }
}

#[test]
fn project_files_lie_under_its_root() {
    assert_eq!(project_config_path("/work/proj"), "/work/proj/.gptcli/config.toml");
    assert_eq!(ProjectState::path("/work/proj"), "/work/proj/.gptcli/state.json");
    assert_eq!(ProjectState::path("/work/proj/"), "/work/proj/.gptcli/state.json");
}

#[test]
fn global_configuration_path() {
    assert_eq!(
        global_config_path_in(Some("/home/a/.config"), Some("/home/a")),
        "/home/a/.config/gptcli/config.toml"
    );
    assert_eq!(global_config_path_in(None, Some("/home/a")), "/home/a/.config/gptcli/config.toml");
    assert_eq!(global_config_path_in(None, None), "./.config/gptcli/config.toml");
    assert!(global_config_path().ends_with("gptcli/config.toml"));
}

#[test]
fn project_root_is_the_top_of_the_working_tree() {
    assert_eq!(project_root(Some("/work/proj\n"), "/cwd"), "/work/proj");
    assert_eq!(project_root(Some("  \n"), "/cwd"), "/cwd");
    assert_eq!(project_root(Some(""), "/cwd"), "/cwd");
    assert_eq!(project_root(None, "/cwd"), "/cwd");
}

#[test]
fn new_state_has_no_thread_and_no_head() {
    let s = ProjectState::at("/work/proj".to_string(), "proj@main".to_string(), 123);
    assert_eq!(s.project_root, "/work/proj");
    assert_eq!(s.namespace, "proj@main");
    assert_eq!(s.current_thread_id, None);
    assert_eq!(s.last_head, None);
    assert_eq!(s.created_at, 123);
    let r: Result<ProjectState, StateError> = ProjectState::new("/r".to_string(), "n".to_string());
    let now = r.unwrap();
    assert_eq!(now.project_root, "/r");
    assert_eq!(now.namespace, "n");
    assert_eq!(now.current_thread_id, None);
    assert!(now.created_at > 1_500_000_000);
    assert_eq!(default_namespace("proj"), "proj@main");
}

#[test]
fn state_is_made_where_the_clock_gave_a_time() {
    let s = ProjectState::at_clock("/r".to_string(), "n".to_string(), Some(42)).unwrap();
    assert_eq!(s.project_root, "/r");
    assert_eq!(s.namespace, "n");
    assert_eq!(s.current_thread_id, None);
    assert_eq!(s.last_head, None);
    assert_eq!(s.created_at, 42);
    let r = ProjectState::at_clock("/r".to_string(), "n".to_string(), None);
    assert_eq!(r.err(), Some(StateError::Clock));
}

#[test]
fn new_configuration_sets_nothing() {
    let c = RootCfg::new();
    assert_eq!(c.default_profile, None);
    assert_eq!(c.lang, None);
    assert_eq!(c.model, None);
    assert_eq!(c.max_output_tokens, None);
    assert!(c.profiles.is_empty());
}

#[test]
fn context_holds_what_it_was_given() {
    let state = ProjectState::at("/r".to_string(), "n".to_string(), 1);
    let mut global = RootCfg::new();
    global.profiles.push(("openai".to_string(), profile(None, Some("k"), None)));
    let eff = load_effective(&global, &RootCfg::new(), &[], None, "/r/.gptcli/config.toml".to_string())
        .unwrap();
    let ctx = AppCtx::new("/r".to_string(), state, eff);
    assert_eq!(ctx.root, "/r");
    assert_eq!(ctx.state.namespace, "n");
    assert_eq!(ctx.eff.api_key, "k");
}

#[test]
fn environment_lookup_takes_the_first() {
    let e = env(&[("A", "1"), ("B", "2"), ("A", "3")]);
    assert_eq!(env_value(&e, "A").as_deref(), Some("1"));
    assert_eq!(env_value(&e, "B").as_deref(), Some("2"));
    assert_eq!(env_value(&e, "C"), None);
}

#[test]
fn defaults_are_in_effect_where_nothing_is_set() {
    let mut global = RootCfg::new();
    global.profiles.push(("openai".to_string(), profile(None, None, None)));
    let e = env(&[("OPENAI_API_KEY", "sk-env")]);
    let eff = load_effective(&global, &RootCfg::new(), &e, None, "/p/.gptcli/config.toml".to_string())
        .unwrap();
    assert_eq!(eff.profile_name, "openai");
    assert_eq!(eff.api_base, "https://api.openai.com/v1");
    assert_eq!(eff.api_key, "sk-env");
    assert_eq!(eff.model, "gpt-4.1-mini");
    assert_eq!(eff.lang, "auto");
    assert_eq!(eff.max_output_tokens, 1200);
    assert_eq!(eff.global_path, None);
    assert_eq!(eff.project_path, "/p/.gptcli/config.toml");
}

#[test]
fn project_settings_go_before_the_users() {
    let mut global = RootCfg::new();
    global.default_profile = Some("g".to_string());
    global.lang = Some("ru".to_string());
    global.model = Some("gm".to_string());
    global.max_output_tokens = Some(10);
    global.profiles.push(("g".to_string(), profile(Some("http://g"), Some("gk"), None)));
    global.profiles.push(("local".to_string(), profile(Some("http://gl"), Some("glk"), None)));
    let mut project = RootCfg::new();
    project.default_profile = Some("local".to_string());
    project.model = Some("pm".to_string());
    project.profiles.push(("local".to_string(), profile(Some("http://pl"), Some("plk"), None)));
    let eff = load_effective(&global, &project, &[], Some("/g.toml".to_string()), "/p.toml".to_string())
        .unwrap();
    assert_eq!(eff.profile_name, "local");
    assert_eq!(eff.api_base, "http://pl");
    assert_eq!(eff.api_key, "plk");
    assert_eq!(eff.model, "pm");
    assert_eq!(eff.lang, "ru");
    assert_eq!(eff.max_output_tokens, 10);
    assert_eq!(eff.global_path.as_deref(), Some("/g.toml"));
    // the environment names the profile before either file does
    let e = env(&[("GPTCLI_PROFILE", "g")]);
    let eff = load_effective(&global, &project, &e, None, "/p.toml".to_string()).unwrap();
    assert_eq!(eff.profile_name, "g");
    assert_eq!(eff.api_key, "gk");
}

#[test]
fn key_comes_from_the_named_variable_first() {
    let mut global = RootCfg::new();
    global.profiles.push(("openai".to_string(), profile(None, Some("literal"), Some("MY_KEY"))));
    let e = env(&[("MY_KEY", "from-var"), ("OPENAI_API_KEY", "common")]);
    let eff = load_effective(&global, &RootCfg::new(), &e, None, "p".to_string()).unwrap();
    assert_eq!(eff.api_key, "from-var");
}

#[test]
fn each_configuration_error() {
    let none = RootCfg::new();
    assert_eq!(
        load_effective(&none, &none, &[], None, "p".to_string()).err(),
        Some(ConfigError::ProfileNotFound("openai".to_string()))
    );
    let named = env(&[("GPTCLI_PROFILE", "mine")]);
    assert_eq!(
        load_effective(&none, &none, &named, None, "p".to_string()).err(),
        Some(ConfigError::ProfileNotFound("mine".to_string()))
    );
    let mut with_env = RootCfg::new();
    with_env.profiles.push(("openai".to_string(), profile(None, Some("x"), Some("MY_KEY"))));
    let e = env(&[("OPENAI_API_KEY", "common")]);
    assert_eq!(
        load_effective(&with_env, &none, &e, None, "p".to_string()).err(),
        Some(ConfigError::EnvNotSet("MY_KEY".to_string()))
    );
    let mut bare = RootCfg::new();
    bare.profiles.push(("openai".to_string(), profile(None, None, None)));
    assert_eq!(
        load_effective(&bare, &none, &[], None, "p".to_string()).err(),
        Some(ConfigError::ApiKeyMissing)
    );
}

#[test]
fn profiles_are_a_table_by_name() {
    let mut cfg = RootCfg::new();
    assert!(cfg.is_wf());
    cfg.profiles.push(("a".to_string(), profile(None, None, None)));
    cfg.profiles.push(("b".to_string(), profile(None, None, None)));
    assert!(cfg.is_wf());
    assert_eq!(cfg.find_profile("b"), Some(1));
    assert_eq!(cfg.find_profile("c"), None);
    let cfg = apply_setting(cfg, "profiles.b.model", "m", None).unwrap();
    let cfg = apply_setting(cfg, "profiles.c.model", "m", None).unwrap();
    assert_eq!(cfg.profiles.len(), 3);
    assert!(cfg.is_wf());
    let mut twice = cfg;
    twice.profiles.push(("a".to_string(), profile(None, None, None)));
    assert!(!twice.is_wf());
}

#[test]
fn set_top_level_settings() {
    let cfg = apply_setting(RootCfg::new(), "default_profile", "local", None).unwrap();
    let cfg = apply_setting(cfg, "lang", "en", None).unwrap();
    let cfg = apply_setting(cfg, "model", "m1", None).unwrap();
    let cfg = apply_setting(cfg, "max_output_tokens", "900", None).unwrap();
    assert_eq!(cfg.default_profile.as_deref(), Some("local"));
    assert_eq!(cfg.lang.as_deref(), Some("en"));
    assert_eq!(cfg.model.as_deref(), Some("m1"));
    assert_eq!(cfg.max_output_tokens, Some(900));
    assert!(cfg.profiles.is_empty());
}

#[test]
fn set_profile_fields() {
    let cfg = apply_setting(RootCfg::new(), "profiles.local.api_base", "http://l", None).unwrap();
    assert_eq!(cfg.profiles.len(), 1);
    assert_eq!(cfg.profiles[0].0, "local");
    assert_eq!(cfg.profiles[0].1.provider, "openai");
    assert_eq!(cfg.profiles[0].1.api_base.as_deref(), Some("http://l"));
    let cfg = apply_setting(cfg, "profiles.local.model", "m", None).unwrap();
    let cfg = apply_setting(cfg, "profiles.local.provider", "azure", None).unwrap();
    let cfg = apply_setting(cfg, "profiles.local.api_key", "k", None).unwrap();
    let cfg = apply_setting(cfg, "profiles.local.api_key_env", "E", None).unwrap();
    assert_eq!(cfg.profiles.len(), 1);
    let p = &cfg.profiles[0].1;
    assert_eq!(p.provider, "azure");
    assert_eq!(p.model.as_deref(), Some("m"));
    assert_eq!(p.api_key.as_deref(), Some("k"));
    assert_eq!(p.api_key_env.as_deref(), Some("E"));
}

#[test]
fn short_keys_set_the_chosen_profile() {
    let cfg = apply_setting(RootCfg::new(), "api_key", "k", None).unwrap();
    assert_eq!(cfg.profiles[0].0, "openai");
    assert_eq!(cfg.profiles[0].1.api_key.as_deref(), Some("k"));
    let cfg = apply_setting(cfg, "default_profile", "mine", None).unwrap();
    let cfg = apply_setting(cfg, "profile_model", "pm", None).unwrap();
    assert_eq!(cfg.profiles[1].0, "mine");
    assert_eq!(cfg.profiles[1].1.model.as_deref(), Some("pm"));
    let cfg = apply_setting(cfg, "provider", "p", Some("openai")).unwrap();
    assert_eq!(cfg.profiles.len(), 2);
    assert_eq!(cfg.profiles[0].1.provider, "p");
}

#[test]
fn each_setting_error() {
    assert_eq!(
        apply_setting(RootCfg::new(), "max_output_tokens", "many", None).err(),
        Some(SetError::BadNumber)
    );
    assert_eq!(
        apply_setting(RootCfg::new(), "max_output_tokens", "-1", None).err(),
        Some(SetError::BadNumber)
    );
    assert_eq!(
        apply_setting(RootCfg::new(), "profiles.local", "x", None).err(),
        Some(SetError::BadProfileKey)
    );
    assert_eq!(
        apply_setting(RootCfg::new(), "profiles.a.b.c", "x", None).err(),
        Some(SetError::BadProfileKey)
    );
    assert_eq!(
        apply_setting(RootCfg::new(), "profiles.local.colour", "x", None).err(),
        Some(SetError::UnknownField)
    );
    assert_eq!(
        apply_setting(RootCfg::new(), "colour", "x", None).err(),
        Some(SetError::UnknownKey)
    );
}

#[test]
fn first_set_up_writes_what_does_not_exist() {
    let (g, p) = init("/g/config.toml", "/p/.gptcli/config.toml", false, true);
    assert_eq!(g.path, "/g/config.toml");
    assert_eq!(g.message, "created global config: /g/config.toml");
    let content = g.content.unwrap();
    assert!(content.starts_with("# ~/.config/gptcli/config.toml\ndefault_profile = \"openai\"\n"));
    assert!(content.ends_with("api_key = \"EMPTY\"\nmodel = \"qwen2.5-coder-32b\"\n"));
    assert_eq!(p.content, None);
    assert_eq!(p.message, "project config exists: /p/.gptcli/config.toml");
    let (g, p) = init("g", "p", true, false);
    assert_eq!(g.content, None);
    assert_eq!(g.message, "global config exists: g");
    assert_eq!(
        p.content.as_deref(),
        Some("# .gptcli/config.toml (project override)\n# default_profile = \"local\"\n# lang = \"en\"\n# model = \"qwen2.5-coder-32b\"\n")
    );
    assert_eq!(p.message, "created project config: p");
    assert_ne!(ConfigSub::Init, ConfigSub::Show);
}

#[test]
fn settings_are_shown_without_the_key() {
    let mut global = RootCfg::new();
    global.profiles.push(("openai".to_string(), profile(None, Some("secret"), None)));
    let eff = load_effective(&global, &RootCfg::new(), &[], Some("/g".to_string()), "/p".to_string())
        .unwrap();
    assert_eq!(
        show(&eff, false),
        vec![
            "Profile:   openai",
            "API base:  https://api.openai.com/v1",
            "Model:     gpt-4.1-mini",
            "Lang:      auto",
            "Max out:   1200",
            "Global:    /g",
            "Project:   /p",
            "API key:   config (hidden)",
        ]
    );
    let eff2 = load_effective(&global, &RootCfg::new(), &[], None, "/p".to_string()).unwrap();
    let lines = show(&eff2, true);
    assert_eq!(lines[5], "Global:    -");
    assert_eq!(lines[7], "API key:   env:OPENAI_API_KEY");
}
