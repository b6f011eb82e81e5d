use macro_manager::commands::{
    apply_imported_macro, base64_error_message, build_ui, clear_weapon_hotkey, decode_macro_payload,
    load_response, macro_preview, payload_from_decoded, save_config, set_active_game, set_master_enabled,
    set_weapon_hotkey, set_weapon_mode, validate_config, AssignMacroPayload, Base64Error,
};
use macro_manager::embedded_icons::BundledIcons;
use macro_manager::profile_manager::default_config;
use macro_manager::types::{
    AppConfig, ExecutionMode, HotkeySpec, MacroDefinition, MacroStep, UiMacroStep, WeaponBinding,
};

fn binding<'a>(cfg: &'a AppConfig, game: &str, weapon: &str) -> &'a WeaponBinding {
    let gp = cfg.game_profiles.iter().find(|g| g.id == game).unwrap();
    gp.bindings.iter().find(|b| b.weapon_id == weapon).unwrap()
}

fn row(t: u64, kind: &str, action: &str, value: &str) -> UiMacroStep {
    UiMacroStep { t, kind: kind.to_string(), action: action.to_string(), value: value.to_string() }
}

fn one_step_macro(id: &str) -> MacroDefinition {
    MacroDefinition {
        id: id.to_string(),
        name: "imported".to_string(),
        version: 1,
        steps: vec![MacroStep::KeyDown { vk: 0x20 }],
    }
}

#[test]
fn default_configuration_is_valid() {
    assert_eq!(validate_config(&default_config()), Ok(()));
}

#[test]
fn duplicate_hotkeys_are_reported_for_their_game() {
    let mut cfg = default_config();
    let gp = cfg.game_profiles.iter_mut().find(|g| g.id == "rust").unwrap();
    for b in gp.bindings.iter_mut().take(2) {
        b.enabled = true;
        b.hotkey = Some(HotkeySpec { modifiers: 2, vk: 0x47 });
    }
    assert_eq!(validate_config(&cfg).unwrap_err(), "Duplicate hotkey (2, 71) for game rust");

    // a disabled binding claims nothing
    let gp = cfg.game_profiles.iter_mut().find(|g| g.id == "rust").unwrap();
    gp.bindings[1].enabled = false;
    assert_eq!(validate_config(&cfg), Ok(()));
}

#[test]
fn setting_a_hotkey_enables_the_binding() {
    let mut cfg = default_config();
    assert_eq!(set_weapon_hotkey(&mut cfg, "pubg", "beryl", "ctrl + g"), Ok(()));
    let b = binding(&cfg, "pubg", "beryl");
    assert_eq!(b.hotkey, Some(HotkeySpec { modifiers: 2, vk: 0x47 }));
    assert!(b.enabled);
}

#[test]
fn setting_a_taken_hotkey_fails_after_the_edit() {
    let mut cfg = default_config();
    let e = set_weapon_hotkey(&mut cfg, "pubg", "beryl", "F").unwrap_err();
    assert_eq!(e, "Duplicate hotkey (0, 70) for game pubg");
    // the edit stays applied, as the validation runs after it
    assert_eq!(binding(&cfg, "pubg", "beryl").hotkey, Some(HotkeySpec { modifiers: 0, vk: 0x46 }));
}

#[test]
fn edits_name_what_is_missing() {
    let mut cfg = default_config();
    let before = cfg.clone();
    assert_eq!(set_weapon_hotkey(&mut cfg, "valorant", "m416", "F").unwrap_err(), "game not found");
    assert_eq!(set_weapon_hotkey(&mut cfg, "pubg", "awp", "F").unwrap_err(), "weapon not found");
    assert_eq!(set_weapon_hotkey(&mut cfg, "pubg", "m416", "  ").unwrap_err(), "empty");
    assert_eq!(set_weapon_hotkey(&mut cfg, "pubg", "m416", "CTRL +").unwrap_err(), "missing key");
    assert_eq!(clear_weapon_hotkey(&mut cfg, "pubg", "nope").unwrap_err(), "weapon not found");
    assert_eq!(set_weapon_mode(&mut cfg, "none", "m416", ExecutionMode::Tap).unwrap_err(), "game not found");
    assert_eq!(set_active_game(&mut cfg, "none".to_string()).unwrap_err(), "game not found");
    assert_eq!(cfg, before);
}

#[test]
fn clearing_a_hotkey_disables_the_binding() {
    let mut cfg = default_config();
    assert_eq!(clear_weapon_hotkey(&mut cfg, "pubg", "m416"), Ok(()));
    let b = binding(&cfg, "pubg", "m416");
    assert_eq!(b.hotkey, None);
    assert!(!b.enabled);
    assert_eq!(b.macro_id, Some("sample-recoil".to_string()));
}

#[test]
fn mode_game_and_master_switch() {
    let mut cfg = default_config();
    assert_eq!(set_weapon_mode(&mut cfg, "pubg", "akm", ExecutionMode::Tap), Ok(()));
    assert_eq!(binding(&cfg, "pubg", "akm").mode, ExecutionMode::Tap);
    assert_eq!(set_active_game(&mut cfg, "cs2".to_string()), Ok(()));
    assert_eq!(cfg.active_game, "cs2");
    assert_eq!(set_master_enabled(&mut cfg, false), Ok(()));
    assert!(!cfg.master_enabled);
}

#[test]
fn saving_checks_the_new_configuration() {
    let mut cfg = default_config();
    let mut next = default_config();
    next.jitter_ms = None;
    assert_eq!(save_config(&mut cfg, next.clone()), Ok(()));
    assert_eq!(cfg, next);

    let mut bad = default_config();
    let gp = bad.game_profiles.iter_mut().find(|g| g.id == "pubg").unwrap();
    gp.bindings[1].hotkey = Some(HotkeySpec { modifiers: 0, vk: 0x05 });
    assert_eq!(save_config(&mut cfg, bad).unwrap_err(), "Duplicate hotkey (0, 5) for game pubg");
    assert_eq!(cfg, next);
}

#[test]
fn importing_replaces_the_macro_with_the_same_id() {
    let mut cfg = default_config();
    let m = one_step_macro("sample-recoil");
    assert_eq!(apply_imported_macro(&mut cfg, m.clone(), None), Ok(()));
    assert_eq!(cfg.macros.iter().filter(|x| x.id == "sample-recoil").count(), 1);
    assert_eq!(cfg.macros.last(), Some(&m));

    let other = one_step_macro("other");
    assert_eq!(apply_imported_macro(&mut cfg, other.clone(), None), Ok(()));
    assert_eq!(cfg.macros, vec![m, other]);
}

#[test]
fn importing_without_id_is_refused() {
    let mut cfg = default_config();
    let before = cfg.clone();
    assert_eq!(apply_imported_macro(&mut cfg, one_step_macro(""), None).unwrap_err(), "macro id required");
    assert_eq!(cfg, before);
}

#[test]
fn importing_with_assignment() {
    let mut cfg = default_config();
    let assign = AssignMacroPayload { game_id: "rust".to_string(), weapon_id: "custom".to_string() };
    assert_eq!(apply_imported_macro(&mut cfg, one_step_macro("t1"), Some(assign)), Ok(()));
    let b = binding(&cfg, "rust", "custom");
    assert_eq!(b.macro_id, Some("t1".to_string()));
    assert!(b.enabled);
    assert_eq!(b.hotkey, Some(HotkeySpec { modifiers: 0, vk: 0x51 }));

    // a binding without hotkey gets MOUSE 4, which m416 already holds in PUBG
    let assign = AssignMacroPayload { game_id: "pubg".to_string(), weapon_id: "beryl".to_string() };
    let e = apply_imported_macro(&mut cfg, one_step_macro("b1"), Some(assign)).unwrap_err();
    assert_eq!(e, "Duplicate hotkey (0, 5) for game pubg");
    assert_eq!(binding(&cfg, "pubg", "beryl").hotkey, Some(HotkeySpec { modifiers: 0, vk: 0x05 }));

    let assign = AssignMacroPayload { game_id: "pubg".to_string(), weapon_id: "none".to_string() };
    let e = apply_imported_macro(&mut cfg, one_step_macro("c1"), Some(assign)).unwrap_err();
    assert_eq!(e, "weapon not found");
    assert!(cfg.macros.iter().any(|m| m.id == "c1"));
}

#[test]
fn preview_timeline() {
    let m = MacroDefinition {
        id: "p".to_string(),
        name: "p".to_string(),
        version: 1,
        steps: vec![
            MacroStep::MouseDown { button: "left".to_string() },
            MacroStep::Delay { ms: 32 },
            MacroStep::MouseUp { button: "x1".to_string() },
            MacroStep::KeyDown { vk: 0x41 },
            MacroStep::MouseMoveRel { dx: 3, dy: -4 },
            MacroStep::KeyUp { vk: 0x1B },
            MacroStep::Delay { ms: u64::MAX },
            MacroStep::Delay { ms: 5 },
        ],
    };
    assert_eq!(
        macro_preview(&m),
        vec![
            row(0, "mouse", "DOWN", "LEFT"),
            row(0, "delay", "WAIT", "32ms"),
            row(32, "mouse", "UP", "X1"),
            row(32, "key", "DOWN", "VK_41"),
            row(32, "key", "UP", "VK_1B"),
            row(32, "delay", "WAIT", "18446744073709551615ms"),
            row(u64::MAX, "delay", "WAIT", "5ms"),
        ]
    );
}

#[test]
fn ui_snapshot_of_the_defaults() {
    let cfg = default_config();
    let ui = build_ui(&cfg, &BundledIcons::none(), &None);
    assert_eq!(ui.master_enabled, cfg.master_enabled);
    assert_eq!(ui.active_game, "pubg");
    assert_eq!(ui.fire_button_vk, 0x01);
    assert_eq!(ui.fire_button_label, "LMB");
    assert_eq!(ui.armed_weapon_id, None);
    assert_eq!(ui.jitter_ms, Some((0, 3)));
    assert_eq!(ui.macros, cfg.macros);
    let codes: Vec<&str> = ui.games.iter().map(|g| g.code.as_str()).collect();
    assert_eq!(codes, vec!["PUBG", "RUST", "CS2"]);
    let pubg = &ui.games[0];
    assert_eq!(pubg.name, "PUBG: Battlegrounds");
    assert_eq!(pubg.logo_url, None);
    let m416 = pubg.weapons.iter().find(|w| w.id == "m416").unwrap();
    assert_eq!(m416.hotkey, "MOUSE 4");
    assert!(m416.bound);
    assert_eq!(m416.mode, ExecutionMode::Hold);
    assert_eq!(m416.macro_id, Some("sample-recoil".to_string()));
    assert_eq!(
        m416.macro_preview,
        Some(vec![row(0, "mouse", "DOWN", "LEFT"), row(0, "delay", "WAIT", "32ms"), row(32, "mouse", "UP", "LEFT")])
    );
    let scarl = pubg.weapons.iter().find(|w| w.id == "scarl").unwrap();
    assert_eq!(scarl.hotkey, "F");
    assert_eq!(scarl.mode, ExecutionMode::Toggle);
    let beryl = pubg.weapons.iter().find(|w| w.id == "beryl").unwrap();
    assert_eq!(beryl.hotkey, "\u{2014}");
    assert!(!beryl.bound);
    assert_eq!(beryl.macro_preview, None);
    let r = load_response(&cfg, &BundledIcons::none(), &None);
    assert_eq!(r.config, cfg);
    assert_eq!(r.ui, ui);
}

#[test]
fn ui_codes_of_other_games_are_upper_case() {
    let mut cfg = default_config();
    cfg.game_profiles[2].id = "valorant".to_string();
    let ui = build_ui(&cfg, &BundledIcons::none(), &None);
    assert_eq!(ui.games[2].code, "VALORANT");
    // a binding that names a missing macro has no preview
    let mut cfg = default_config();
    cfg.macros.clear();
    let ui = build_ui(&cfg, &BundledIcons::none(), &None);
    let m416 = ui.games[0].weapons.iter().find(|w| w.id == "m416").unwrap();
    assert_eq!(m416.macro_preview, None);
    assert!(m416.bound);
}

#[test]
fn base64_payloads() {
    assert_eq!(decode_macro_payload("  REVMQVk=\n").unwrap(), b"DELAY".to_vec());
    assert_eq!(decode_macro_payload("!!!!").unwrap_err(), "invalid base64: Invalid symbol 33, offset 0.");
    assert!(decode_macro_payload("QQ").unwrap_err().starts_with("invalid base64: "));
    assert_eq!(base64_error_message(Base64Error::InvalidLength(5)), "Invalid input length: 5");
    assert_eq!(base64_error_message(Base64Error::InvalidLastSymbol(2, 66)), "Invalid last symbol 66, offset 2.");
    assert_eq!(base64_error_message(Base64Error::InvalidPadding), "Invalid padding");
    assert_eq!(payload_from_decoded(Ok(vec![1, 2])).unwrap(), vec![1, 2]);
    assert_eq!(
        payload_from_decoded(Err(Base64Error::InvalidByte(3, 35))).unwrap_err(),
        "invalid base64: Invalid symbol 35, offset 3."
    );
}

#[test]
fn successful_edits_keep_hotkeys_distinct() {
    let mut cfg = default_config();
    assert_eq!(set_weapon_hotkey(&mut cfg, "cs2", "mp9", "shift + mouse 4"), Ok(()));
    assert_eq!(validate_config(&cfg), Ok(()));
    assert_eq!(set_weapon_hotkey(&mut cfg, "cs2", "famas", "SHIFT+MOUSE 4").unwrap_err(), "Duplicate hotkey (4, 5) for game cs2");
    assert!(validate_config(&cfg).is_err());
    assert_eq!(clear_weapon_hotkey(&mut cfg, "cs2", "famas"), Ok(()));
    assert_eq!(validate_config(&cfg), Ok(()));
}

#[test]
fn ui_shows_logos_and_the_armed_weapon() {
    let cfg = default_config();
    let icons = BundledIcons {
        weapons: vec![],
        logos: vec![
            ("cs2".to_string(), "data:image/svg+xml;base64,Q1M=".to_string()),
            ("cs2".to_string(), "data:image/png;base64,AA==".to_string()),
        ],
    };
    let ui = build_ui(&cfg, &icons, &Some("akm".to_string()));
    assert_eq!(ui.armed_weapon_id, Some("akm".to_string()));
    assert_eq!(ui.games[0].logo_url, None);
    assert_eq!(ui.games[2].logo_url, Some("data:image/svg+xml;base64,Q1M=".to_string()));
    let armed: Vec<&str> = ui.games[0].weapons.iter().filter(|w| w.armed).map(|w| w.id.as_str()).collect();
    assert_eq!(armed, vec!["akm"]);
    // only the active game shows an armed weapon
    let ui = build_ui(&cfg, &icons, &Some("ak47".to_string()));
    assert!(ui.games.iter().all(|g| g.weapons.iter().all(|w| !w.armed)));
}

#[test]
fn clearing_twice_is_clearing_once() {
    let mut cfg = default_config();
    assert_eq!(clear_weapon_hotkey(&mut cfg, "rust", "lr300"), Ok(()));
    let once = cfg.clone();
    assert_eq!(clear_weapon_hotkey(&mut cfg, "rust", "lr300"), Ok(()));
    assert_eq!(cfg, once);
    assert_eq!(validate_config(&cfg), Ok(()));
}
