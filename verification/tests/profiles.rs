use macro_manager::config_manager::refresh_with_defaults;
use macro_manager::embedded_icons::{game_logo_data_url, weapon_icon_data_url, BundledIcons};
use macro_manager::profile_manager::{
    apply_default_weapon_icons, apply_weapon_icons_from, default_config, default_config_with, sync_weapons_from,
    sync_weapons_to_defaults,
};
use macro_manager::types::{
    default_fire_button_vk, default_game, default_macro_version, default_master, default_schema, default_true,
    ExecutionMode, HotkeySpec, MacroStep, WeaponBinding, WeaponTemplate,
};

fn weapon(id: &str, icon: Option<&str>) -> WeaponTemplate {
    WeaponTemplate {
        id: id.to_string(),
        name: id.to_uppercase(),
        class: "AR".to_string(),
        caliber: "7.62".to_string(),
        rpm: Some(600),
        recoil_bits: None,
        icon_url: icon.map(|s| s.to_string()),
    }
}

fn bound(weapon_id: &str) -> WeaponBinding {
    WeaponBinding {
        weapon_id: weapon_id.to_string(),
        macro_id: None,
        hotkey: None,
        mode: ExecutionMode::Hold,
        enabled: false,
    }
}

fn ids(ws: &[WeaponTemplate]) -> Vec<&str> {
    ws.iter().map(|w| w.id.as_str()).collect()
}

#[test]
fn default_profiles() {
    let cfg = default_config();
    assert_eq!(cfg.schema_version, 1);
    assert!(cfg.master_enabled);
    assert_eq!(cfg.active_game, "pubg");
    assert_eq!(cfg.fire_button_vk, 0x01);
    assert_eq!(cfg.jitter_ms, Some((0, 3)));
    assert_eq!(cfg.macros.len(), 1);
    assert_eq!(cfg.macros[0].id, "sample-recoil");
    assert_eq!(cfg.macros[0].name, "Sample pattern");
    assert_eq!(
        cfg.macros[0].steps,
        vec![
            MacroStep::MouseDown { button: "left".to_string() },
            MacroStep::Delay { ms: 32 },
            MacroStep::MouseUp { button: "left".to_string() },
        ]
    );
    let games: Vec<&str> = cfg.game_profiles.iter().map(|g| g.id.as_str()).collect();
    assert_eq!(games, vec!["pubg", "rust", "cs2"]);
    let pubg = &cfg.game_profiles[0];
    assert_eq!(ids(&pubg.weapons), vec!["m416", "akm", "scarl", "beryl", "vector", "mini14"]);
    assert_eq!(pubg.weapons[0].name, "M416");
    assert_eq!(pubg.weapons[0].rpm, Some(720));
    assert_eq!(pubg.weapons[0].recoil_bits, Some(0.62f32.to_bits()));
    assert_eq!(pubg.weapons[0].icon_url, None);
    assert_eq!(pubg.bindings[0].hotkey, Some(HotkeySpec { modifiers: 0, vk: 0x05 }));
    assert_eq!(pubg.bindings[2].mode, ExecutionMode::Toggle);
    assert_eq!(pubg.bindings[5].mode, ExecutionMode::Tap);
    for gp in &cfg.game_profiles {
        for w in &gp.weapons {
            assert!(!["awp", "kar98k", "ump45"].contains(&w.id.as_str()));
        }
        assert_eq!(gp.weapons.len(), gp.bindings.len());
    }
}

#[test]
fn stored_defaults() {
    assert!(default_true());
    assert_eq!(default_macro_version(), 1);
    assert_eq!(default_schema(), 1);
    assert!(default_master());
    assert_eq!(default_game(), "pubg");
    assert_eq!(default_fire_button_vk(), 0x01);
    assert_eq!(ExecutionMode::default(), ExecutionMode::Hold);
    let none = BundledIcons::none();
    assert_eq!(weapon_icon_data_url(&none, "pubg", "m416"), None);
    assert_eq!(game_logo_data_url(&none, "cs2"), None);
}

#[test]
fn removed_weapons_are_dropped_and_the_rest_reordered() {
    let mut cfg = default_config();
    let pubg = &mut cfg.game_profiles[0];
    pubg.weapons.reverse();
    pubg.weapons.insert(2, weapon("kar98k", None));
    pubg.bindings.push(bound("kar98k"));
    cfg.game_profiles[2].weapons.push(weapon("awp", None));
    assert!(sync_weapons_to_defaults(&mut cfg));
    assert_eq!(ids(&cfg.game_profiles[0].weapons), vec!["m416", "akm", "scarl", "beryl", "vector", "mini14"]);
    assert_eq!(cfg.game_profiles[0].bindings.len(), 6);
    assert!(!cfg.game_profiles[2].weapons.iter().any(|w| w.id == "awp"));
    // the second pass finds nothing to drop and changes nothing
    let once = cfg.clone();
    assert!(!sync_weapons_to_defaults(&mut cfg));
    assert_eq!(cfg, once);
}

#[test]
fn reordering_alone_is_not_a_change() {
    let mut cfg = default_config();
    cfg.game_profiles[1].weapons.swap(0, 1);
    assert!(!sync_weapons_to_defaults(&mut cfg));
    assert_eq!(cfg, default_config());
}

#[test]
fn profiles_of_unknown_games_are_kept() {
    let mut cfg = default_config();
    let mut other = cfg.game_profiles[0].clone();
    other.id = "valorant".to_string();
    other.weapons.push(weapon("vandal", None));
    cfg.game_profiles.push(other.clone());
    assert!(!sync_weapons_to_defaults(&mut cfg));
    assert_eq!(cfg.game_profiles[3], other);
}

#[test]
fn sync_keeps_duplicates_in_their_order() {
    let mut defaults = default_config();
    defaults.game_profiles[0].weapons = vec![weapon("a", None), weapon("b", None)];
    let mut cfg = default_config();
    let mut b2 = weapon("b", None);
    b2.name = "second b".to_string();
    cfg.game_profiles[0].weapons = vec![weapon("b", None), weapon("x", None), weapon("a", None), b2.clone()];
    cfg.game_profiles[0].bindings = vec![bound("x"), bound("b"), bound("a")];
    assert!(sync_weapons_from(&mut cfg, &defaults));
    assert_eq!(cfg.game_profiles[0].weapons, vec![weapon("a", None), weapon("b", None), b2]);
    assert_eq!(cfg.game_profiles[0].bindings, vec![bound("b"), bound("a")]);
}

#[test]
fn bundled_icons_replace_remote_and_missing_ones() {
    let mut defaults = default_config();
    defaults.game_profiles[0].weapons[0].icon_url = Some("data:image/png;base64,AAAA".to_string());
    defaults.game_profiles[0].weapons[1].icon_url = Some("data:image/png;base64,BBBB".to_string());
    defaults.game_profiles[0].weapons[2].icon_url = Some("data:image/png;base64,CCCC".to_string());
    let mut cfg = default_config();
    cfg.game_profiles[0].weapons[1].icon_url = Some("https://example.invalid/akm.png".to_string());
    cfg.game_profiles[0].weapons[2].icon_url = Some("my-own-icon.png".to_string());
    cfg.game_profiles[0].weapons[3].icon_url = Some("assets/beryl.svg".to_string());
    assert!(apply_weapon_icons_from(&mut cfg, &defaults));
    let ws = &cfg.game_profiles[0].weapons;
    assert_eq!(ws[0].icon_url.as_deref(), Some("data:image/png;base64,AAAA"));
    assert_eq!(ws[1].icon_url.as_deref(), Some("data:image/png;base64,BBBB"));
    assert_eq!(ws[2].icon_url.as_deref(), Some("my-own-icon.png"));
    // no bundled icon for beryl: its icon stays
    assert_eq!(ws[3].icon_url.as_deref(), Some("assets/beryl.svg"));
    let once = cfg.clone();
    assert!(!apply_weapon_icons_from(&mut cfg, &defaults));
    assert_eq!(cfg, once);
}

#[test]
fn no_bundled_icons_change_nothing() {
    let mut cfg = default_config();
    cfg.game_profiles[0].weapons[0].icon_url = Some("assets/m416.svg".to_string());
    let before = cfg.clone();
    assert!(!apply_default_weapon_icons(&mut cfg, &BundledIcons::none()));
    assert_eq!(cfg, before);
}

#[test]
fn refreshing_a_loaded_configuration() {
    let mut cfg = default_config();
    assert!(!refresh_with_defaults(&mut cfg, &BundledIcons::none()));
    assert_eq!(cfg, default_config());
    cfg.game_profiles[1].weapons.push(weapon("ump45", None));
    cfg.game_profiles[1].bindings.push(bound("ump45"));
    assert!(refresh_with_defaults(&mut cfg, &BundledIcons::none()));
    assert_eq!(cfg, default_config());
}

fn sample_icons() -> BundledIcons {
    BundledIcons {
        weapons: vec![
            ("pubg".to_string(), "m416".to_string(), "data:image/png;base64,TTQ=".to_string()),
            ("rust".to_string(), "m416".to_string(), "data:image/png;base64,Ug==".to_string()),
            ("pubg".to_string(), "m416".to_string(), "data:image/png;base64,second".to_string()),
            ("cs2".to_string(), "mp9".to_string(), "data:image/svg+xml;base64,OQ==".to_string()),
        ],
        logos: vec![("pubg".to_string(), "data:image/png;base64,UA==".to_string())],
    }
}

#[test]
fn bundled_icon_lookup() {
    let icons = sample_icons();
    assert_eq!(weapon_icon_data_url(&icons, "pubg", "m416"), Some("data:image/png;base64,TTQ=".to_string()));
    assert_eq!(weapon_icon_data_url(&icons, "cs2", "mp9"), Some("data:image/svg+xml;base64,OQ==".to_string()));
    assert_eq!(weapon_icon_data_url(&icons, "cs2", "m416"), None);
    assert_eq!(game_logo_data_url(&icons, "pubg"), Some("data:image/png;base64,UA==".to_string()));
    assert_eq!(game_logo_data_url(&icons, "rust"), None);
}

#[test]
fn defaults_carry_bundled_icons() {
    let cfg = default_config_with(&sample_icons());
    assert_eq!(cfg.game_profiles[0].weapons[0].icon_url.as_deref(), Some("data:image/png;base64,TTQ="));
    assert_eq!(cfg.game_profiles[0].weapons[1].icon_url, None);
    assert_eq!(cfg.game_profiles[2].weapons[5].icon_url.as_deref(), Some("data:image/svg+xml;base64,OQ=="));
}

#[test]
fn stored_asset_icons_are_refreshed() {
    let icons = sample_icons();
    let mut cfg = default_config();
    cfg.game_profiles[0].weapons[0].icon_url = Some("assets/m416.svg".to_string());
    cfg.game_profiles[2].weapons[5].icon_url = Some("my-mp9.png".to_string());
    assert!(apply_default_weapon_icons(&mut cfg, &icons));
    assert_eq!(cfg.game_profiles[0].weapons[0].icon_url.as_deref(), Some("data:image/png;base64,TTQ="));
    assert_eq!(cfg.game_profiles[2].weapons[5].icon_url.as_deref(), Some("my-mp9.png"));
    assert!(!apply_default_weapon_icons(&mut cfg, &icons));
    let mut loaded = default_config();
    assert!(refresh_with_defaults(&mut loaded, &icons));
    assert_eq!(loaded, default_config_with(&icons));
}

#[test]
fn applying_bundled_icons_twice_changes_nothing() {
    let icons = sample_icons();
    let mut cfg = default_config();
    cfg.game_profiles[0].weapons[0].icon_url = Some("https://example.invalid/m416.png".to_string());
    assert!(apply_default_weapon_icons(&mut cfg, &icons));
    let once = cfg.clone();
    assert!(!apply_default_weapon_icons(&mut cfg, &icons));
    assert_eq!(cfg, once);
}
