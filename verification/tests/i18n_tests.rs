use goldsrc::i18n::compiler::Compiler;
use goldsrc::i18n::dict::DictAccess;
use goldsrc::i18n::engine::I18nEngine;
use goldsrc::placeholders::format_placeholders;

#[test]
fn test_placeholder_replacement() {
    let template = "Hello, {name}! You have {amount}$ (Slot: {0}, ID: {1})";
    let named = [("name", "Player1"), ("amount", "500")];
    let pos = ["#1", "4419"];

    let formatted = I18nEngine::format_placeholders(template, &named, &pos);
    assert_eq!(formatted, "Hello, Player1! You have 500$ (Slot: #1, ID: 4419)");
}

#[test]
fn test_placeholder_replacement_with_defaults() {
    let template = "Hello, {name='Guest'}! Level: {lvl='1'}, Weapon: {0='Knife'}";
    let named = [("name", "Player1")];
    let pos: [&str; 0] = [];

    let formatted = format_placeholders(template, &named, &pos);
    assert_eq!(formatted, "Hello, Player1! Level: 1, Weapon: Knife");
}

#[test]
fn test_advanced_i18n_compilation_and_macros() {
    let toml_content = r#"
        [config]
        fallback = "ru"

        [templates]
        box = "$vars.prefix {0} @{w('(Info: $vars.support_url)')}"
        award = "$vars.prefix Вам выдано: @{g('{item}')}!"

        [vars]
        prefix = "@{tag('VIP System')}"
        support_url = "discord.gg/server"
        currency = "$"

        [translations.ru.vars]
        currency = "₽"

        [translations.ru]
        menu_title = "$vars.prefix Выберите комплект:"
        money_reward = "@{templates.award(item = '{amount} $vars.currency')}"
        info = "@{templates.box('Правила сервера обновлены.')}"

        [translations.en]
        menu_title = "$vars.prefix Choose kit:"
        money_reward = "@{templates.award(item = '{amount} $vars.currency')}"
        info = "@{templates.box('Server rules updated.')}"
    "#;

    let mut engine = I18nEngine::new();
    engine.clear();
    let count = engine.load_toml_string("vip_menu", toml_content).unwrap();
    assert_eq!(count, 6);

    let ru_reward = engine.translate("vip_menu", "ru", "money_reward", &[("amount", "5000")], &[]);
    assert_eq!(ru_reward, "^3[\x04VIP System^3]^1 Вам выдано: \x045000 ₽\x01!");

    let en_reward = engine.translate("vip_menu", "en", "money_reward", &[("amount", "5000")], &[]);
    assert_eq!(en_reward, "^3[\x04VIP System^3]^1 Вам выдано: \x045000 $\x01!");

    let ru_info = engine.translate("vip_menu", "ru", "info", &[], &[]);
    assert_eq!(
        ru_info,
        "^3[\x04VIP System^3]^1 Правила сервера обновлены. \x01(Info: discord.gg/server)\x01"
    );

    let de_title = engine.translate("vip_menu", "de", "menu_title", &[], &[]);
    assert_eq!(de_title, "^3[\x04VIP System^3]^1 Выберите комплект:");
}

#[test]
fn test_access_control_and_common_fallback() {
    let common_toml = r#"
        [translations.ru]
        btn_yes = "Да"
        btn_no = "Нет"
        btn_back = "Назад"
    "#;

    let vip_toml = r#"
        [config]
        access = { type = "shared", allowed = ["vip_menu", "vip_chat"] }

        [translations.ru]
        tag = "[VIP Core]"
    "#;

    let secret_toml = r#"
        [config]
        access = "private"

        [translations.ru]
        password = "SecretPassword123"
    "#;

    let mut engine = I18nEngine::new();
    engine.clear();
    engine.load_toml_string("common", common_toml).unwrap();
    engine.load_toml_string("vip_core", vip_toml).unwrap();
    engine.load_toml_string("secret_system", secret_toml).unwrap();

    let owner_tag = engine.translate_with_caller("vip_core", "vip_core", "ru", "tag", &[], &[]);
    assert_eq!(owner_tag, "[VIP Core]");

    let shared_tag = engine.translate_with_caller("vip_menu", "vip_core", "ru", "tag", &[], &[]);
    assert_eq!(shared_tag, "[VIP Core]");

    let denied = engine.translate_with_caller("random_plugin", "secret_system", "ru", "password", &[], &[]);
    assert_eq!(denied, "password");

    let common_btn = engine.translate_with_caller("vip_menu", "vip_core", "ru", "btn_yes", &[], &[]);
    assert_eq!(common_btn, "Да");

    engine.set_access("common", DictAccess::Simple("private".to_string()), true);
    let common_allowed = engine.translate_with_caller("any_plugin", "common", "ru", "btn_back", &[], &[]);
    assert_eq!(common_allowed, "Назад");
}

#[test]
fn test_i18n_load_and_translate() {
    let toml_str = r#"
        [ru]
        greeting = "Привет, {name}!"
        reward = "Вы получили {0} XP"

        [en]
        greeting = "Hello, {name}!"
        reward = "You received {0} XP"
    "#;
    let mut engine = I18nEngine::new();
    let count = engine.load_toml_string("test_plugin", toml_str).unwrap();
    assert_eq!(count, 4);
    assert_eq!(engine.translate("test_plugin", "ru", "greeting", &[("name", "Алексей")], &[]), "Привет, Алексей!");
    assert_eq!(engine.translate("test_plugin", "en", "reward", &[], &["150"]), "You received 150 XP");
    assert_eq!(engine.translate("test_plugin", "EN", "reward", &[], &["150"]), "You received 150 XP");
    assert_eq!(engine.translate("test_plugin", "de", "greeting", &[("name", "Hans")], &[]), "Hello, Hans!");
    assert_eq!(engine.translate("test_plugin", "de", "missing_key", &[], &[]), "missing_key");
}

#[test]
fn i18n_parse_error_and_expansion_errors_are_reported() {
    let mut engine = I18nEngine::new();
    let err = engine.load_toml_string("broken", "[ru\nkey = ").unwrap_err();
    assert!(err.starts_with("Failed to parse lang TOML for 'broken': "));

    let unknown_template = r#"
        [translations.en]
        x = "@{templates.nope()}"
    "#;
    assert!(engine.load_toml_string("bad", unknown_template).is_err());
    assert_eq!(engine.translate("bad", "en", "x", &[], &[]), "x");
}

#[test]
fn i18n_clear_forgets_everything() {
    let mut engine = I18nEngine::new();
    engine.load_toml_string("d", "[en]\nk = \"v\"\n").unwrap();
    assert_eq!(engine.translate("d", "en", "k", &[], &[]), "v");
    engine.clear();
    assert_eq!(engine.translate("d", "en", "k", &[], &[]), "k");
}

#[test]
fn access_policies_decide_who_reads() {
    assert!(DictAccess::private().is_allowed("Common", "anyone"));
    assert!(DictAccess::private().is_allowed("VIP", "vip"));
    assert!(DictAccess::private().is_allowed("vip", ""));
    assert!(!DictAccess::private().is_allowed("vip", "other"));
    assert!(DictAccess::public().is_allowed("vip", "other"));
    let shared = DictAccess::shared(vec!["Menu".to_string()]);
    assert!(shared.is_allowed("vip", "menu"));
    assert!(!shared.is_allowed("vip", "chat"));
    assert!(DictAccess::Simple("PUBLIC".to_string()).is_allowed("vip", "x"));
}

#[test]
fn server_lang_defaults_to_english() {
    assert_eq!(I18nEngine::server_lang(None), "en");
    assert_eq!(I18nEngine::server_lang(Some("ru".to_string())), "ru");
}

#[test]
fn find_macro_call_reports_name_args_and_byte_range() {
    let text = "ab @{g('x', k = 'v')} cd";
    let call = Compiler::find_macro_call(text).unwrap();
    assert_eq!(call.name, "g");
    assert_eq!(call.pos_args, vec!["x".to_string()]);
    assert_eq!(call.start, 3);
    assert_eq!(call.end, 21);
    assert!(Compiler::find_macro_call("no macros here").is_none());
}

#[test]
fn test_macro_with_nested_placeholder_defaults_and_player_lang() {
    let toml_content = r#"
        [vars]
        tag = "@{tag('GoldSrc.rs')}"

        [translations.ru]
        welcome_msg = "$vars.tag Добро пожаловать, @{g('{name='Гость'}')}!"
        reward_msg = "$vars.tag Бонус: @{g('{amount='1000'}')} ₽ и @{g('{xp='50'}')} XP!"

        [translations.en]
        welcome_msg = "$vars.tag Welcome, @{g('{name='Guest'}')}!"
        reward_msg = "$vars.tag Bonus: @{g('{amount='1000'}')} $ and @{g('{xp='50'}')} XP!"
    "#;

    let mut engine = I18nEngine::new();
    engine.clear();
    let count = engine.load_toml_string("demo_i18n", toml_content).unwrap();
    assert_eq!(count, 4);

    // 1. Interpolation with provided named values
    let msg_custom = engine.translate("demo_i18n", "ru", "welcome_msg", &[("name", "Player#1")], &[]);
    assert_eq!(msg_custom, "^3[\x04GoldSrc.rs^3]^1 Добро пожаловать, \x04Player#1\x01!");

    // 2. Interpolation with defaults (no params passed)
    let msg_default = engine.translate("demo_i18n", "ru", "welcome_msg", &[], &[]);
    assert_eq!(msg_default, "^3[\x04GoldSrc.rs^3]^1 Добро пожаловать, \x04Гость\x01!");

    // 3. Multi-param interpolation with numbers
    let amount = 5000.to_string();
    let xp = 250.to_string();
    let reward = engine.translate("demo_i18n", "ru", "reward_msg", &[("amount", &amount), ("xp", &xp)], &[]);
    assert_eq!(reward, "^3[\x04GoldSrc.rs^3]^1 Бонус: \x045000\x01 ₽ и \x04250\x01 XP!");

    // 4. A player's language code (a fresh player reads "en")
    let player_welcome = engine.translate("demo_i18n", "en", "welcome_msg", &[("name", "TestUser")], &[]);
    assert_eq!(player_welcome, "^3[\x04GoldSrc.rs^3]^1 Welcome, \x04TestUser\x01!");

    // 5. The server language with no `sv_language` set
    assert_eq!(I18nEngine::server_lang(None), "en");
}
