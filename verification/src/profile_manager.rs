//! The built-in game profiles and the reconciliation of a stored
//! configuration with them.
use vstd::prelude::*;
use crate::text::{string_lit, str_eq, starts_with, chars_of, starts_with_lit};
use crate::types::{
    AppConfig, GameProfile, WeaponBinding, WeaponTemplate, HotkeySpec, ExecutionMode, MacroDefinition,
    MacroStep, StepView, opt_view, step_views, settings_same,
};
use crate::commands::{find_game, lemma_find_game, game_index};
use crate::embedded_icons::{BundledIcons, icon_lookup};

verus! {

pub open spec fn weapon_is(w: WeaponTemplate, id: Seq<char>, name: Seq<char>, class: Seq<char>, caliber: Seq<char>, rpm: u32, recoil_bits: u32, icon: Option<Seq<char>>) -> bool {
    &&& w.id@ == id
    &&& w.name@ == name
    &&& w.class@ == class
    &&& w.caliber@ == caliber
    &&& w.rpm == Some(rpm)
    &&& w.recoil_bits == Some(recoil_bits)
    &&& opt_view(w.icon_url) == icon
}

pub open spec fn binding_is(b: WeaponBinding, weapon: Seq<char>, macro_id: Option<Seq<char>>, hotkey: Option<(u32, u32)>, mode: ExecutionMode, enabled: bool) -> bool {
    &&& b.weapon_id@ == weapon
    &&& opt_view(b.macro_id) == macro_id
    &&& b.hotkey == match hotkey {
        Some((m, v)) => Some(HotkeySpec { modifiers: m, vk: v }),
        None => None,
    }
    &&& b.mode == mode
    &&& b.enabled == enabled
}

fn bind(weapon_id: &str, macro_id: Option<&str>, hotkey: Option<(u32, u32)>, mode: ExecutionMode, enabled: bool) -> (r: WeaponBinding)
    ensures
        binding_is(r, weapon_id@, match macro_id { Some(m) => Some(m@), None => None }, hotkey, mode, enabled),
{
    WeaponBinding {
        weapon_id: string_lit(weapon_id),
        macro_id: match macro_id {
            Some(m) => Some(string_lit(m)),
            None => None,
        },
        hotkey: match hotkey {
            Some((m, vk)) => Some(HotkeySpec { modifiers: m, vk }),
            None => None,
        },
        mode,
        enabled,
    }
}

/// The bundled icon of a weapon.
fn wicon(icons: &BundledIcons, game: &str, weapon_id: &str) -> (r: Option<String>)
    ensures
        opt_view(r) == icon_lookup(icons.weapons@, game@, weapon_id@),
{
    crate::embedded_icons::weapon_icon_data_url(icons, game, weapon_id)
}

fn tpl(id: &str, name: &str, class: &str, caliber: &str, rpm: u32, recoil_bits: u32) -> (r: WeaponTemplate)
    ensures
        weapon_is(r, id@, name@, class@, caliber@, rpm, recoil_bits, None),
{
    tpl_icon(id, name, class, caliber, rpm, recoil_bits, None)
}

fn tpl_icon(id: &str, name: &str, class: &str, caliber: &str, rpm: u32, recoil_bits: u32, icon_url: Option<String>) -> (r: WeaponTemplate)
    ensures
        r.id@ == id@,
        r.name@ == name@,
        r.class@ == class@,
        r.caliber@ == caliber@,
        r.rpm == Some(rpm),
        r.recoil_bits == Some(recoil_bits),
        r.icon_url == icon_url,
{
    WeaponTemplate {
        id: string_lit(id),
        name: string_lit(name),
        class: string_lit(class),
        caliber: string_lit(caliber),
        rpm: Some(rpm),
        recoil_bits: Some(recoil_bits),
        icon_url,
    }
}

/// The built-in `pubg` profile.
pub open spec fn is_pubg_profile(gp: GameProfile, t: Seq<(String, String, String)>) -> bool {
    &&& gp.id@ == "pubg"@
    &&& gp.display_name@ == "PUBG: Battlegrounds"@
    &&& gp.subtitle@ == "Battle royale \u{b7} 100 players"@
    &&& gp.profile_label@ == "PROFILE 03"@
    &&& gp.weapons@.len() == 6
    &&& gp.bindings@.len() == 6
    &&& weapon_is(gp.weapons@[0], "m416"@, "M416"@, "AR"@, "5.56"@, 720, 0x3F1EB852, icon_lookup(t, "pubg"@, "m416"@))
    &&& weapon_is(gp.weapons@[1], "akm"@, "AKM"@, "AR"@, "7.62"@, 600, 0x3F47AE14, icon_lookup(t, "pubg"@, "akm"@))
    &&& weapon_is(gp.weapons@[2], "scarl"@, "SCAR-L"@, "AR"@, "5.56"@, 625, 0x3F0CCCCD, icon_lookup(t, "pubg"@, "scarl"@))
    &&& weapon_is(gp.weapons@[3], "beryl"@, "Beryl M762"@, "AR"@, "7.62"@, 700, 0x3F59999A, icon_lookup(t, "pubg"@, "beryl"@))
    &&& weapon_is(gp.weapons@[4], "vector"@, "Vector"@, "SMG"@, ".45"@, 1100, 0x3EC28F5C, icon_lookup(t, "pubg"@, "vector"@))
    &&& weapon_is(gp.weapons@[5], "mini14"@, "Mini-14"@, "DMR"@, "5.56"@, 250, 0x3E8F5C29, icon_lookup(t, "pubg"@, "mini14"@))
    &&& binding_is(gp.bindings@[0], "m416"@, Some("sample-recoil"@), Some((0, 0x05)), ExecutionMode::Hold, true)
    &&& binding_is(gp.bindings@[1], "akm"@, Some("sample-recoil"@), Some((0, 0x06)), ExecutionMode::Hold, true)
    &&& binding_is(gp.bindings@[2], "scarl"@, Some("sample-recoil"@), Some((0, 0x46)), ExecutionMode::Toggle, true)
    &&& binding_is(gp.bindings@[3], "beryl"@, None, None, ExecutionMode::Hold, false)
    &&& binding_is(gp.bindings@[4], "vector"@, None, None, ExecutionMode::Hold, false)
    &&& binding_is(gp.bindings@[5], "mini14"@, None, None, ExecutionMode::Tap, false)
}

fn game_pubg(icons: &BundledIcons) -> (r: GameProfile)
    ensures
        is_pubg_profile(r, icons.weapons@),
{
    let mut weapons: Vec<WeaponTemplate> = Vec::new();
    weapons.push(tpl_icon("m416", "M416", "AR", "5.56", 720, 0x3F1EB852, wicon(icons, "pubg", "m416")));
    weapons.push(tpl_icon("akm", "AKM", "AR", "7.62", 600, 0x3F47AE14, wicon(icons, "pubg", "akm")));
    weapons.push(tpl_icon("scarl", "SCAR-L", "AR", "5.56", 625, 0x3F0CCCCD, wicon(icons, "pubg", "scarl")));
    weapons.push(tpl_icon("beryl", "Beryl M762", "AR", "7.62", 700, 0x3F59999A, wicon(icons, "pubg", "beryl")));
    weapons.push(tpl_icon("vector", "Vector", "SMG", ".45", 1100, 0x3EC28F5C, wicon(icons, "pubg", "vector")));
    weapons.push(tpl_icon("mini14", "Mini-14", "DMR", "5.56", 250, 0x3E8F5C29, wicon(icons, "pubg", "mini14")));
    let mut bindings: Vec<WeaponBinding> = Vec::new();
    bindings.push(bind("m416", Some("sample-recoil"), Some((0, 0x05)), ExecutionMode::Hold, true));
    bindings.push(bind("akm", Some("sample-recoil"), Some((0, 0x06)), ExecutionMode::Hold, true));
    bindings.push(bind("scarl", Some("sample-recoil"), Some((0, 0x46)), ExecutionMode::Toggle, true));
    bindings.push(bind("beryl", None, None, ExecutionMode::Hold, false));
    bindings.push(bind("vector", None, None, ExecutionMode::Hold, false));
    bindings.push(bind("mini14", None, None, ExecutionMode::Tap, false));
    GameProfile {
        id: string_lit("pubg"),
        display_name: string_lit("PUBG: Battlegrounds"),
        subtitle: string_lit("Battle royale \u{b7} 100 players"),
        profile_label: string_lit("PROFILE 03"),
        weapons,
        bindings,
    }
}

/// The built-in `rust` profile.
pub open spec fn is_rust_profile(gp: GameProfile, t: Seq<(String, String, String)>) -> bool {
    &&& gp.id@ == "rust"@
    &&& gp.display_name@ == "Rust"@
    &&& gp.subtitle@ == "Survival \u{b7} PvP"@
    &&& gp.profile_label@ == "PROFILE 01"@
    &&& gp.weapons@.len() == 6
    &&& gp.bindings@.len() == 6
    &&& weapon_is(gp.weapons@[0], "ak47"@, "AK-47"@, "AR"@, "5.56"@, 600, 0x3F51EB85, icon_lookup(t, "rust"@, "ak47"@))
    &&& weapon_is(gp.weapons@[1], "lr300"@, "LR-300"@, "AR"@, "5.56"@, 600, 0x3F147AE1, icon_lookup(t, "rust"@, "lr300"@))
    &&& weapon_is(gp.weapons@[2], "mp5a4"@, "MP5A4"@, "SMG"@, "9mm"@, 800, 0x3EE147AE, icon_lookup(t, "rust"@, "mp5a4"@))
    &&& weapon_is(gp.weapons@[3], "thompson"@, "Thompson"@, "SMG"@, ".45"@, 600, 0x3F051EB8, icon_lookup(t, "rust"@, "thompson"@))
    &&& weapon_is(gp.weapons@[4], "custom"@, "Custom SMG"@, "SMG"@, "9mm"@, 750, 0x3EF5C28F, icon_lookup(t, "rust"@, "custom"@))
    &&& weapon_is(gp.weapons@[5], "m249"@, "M249"@, "LMG"@, "5.56"@, 700, 0x3F6147AE, icon_lookup(t, "rust"@, "m249"@))
    &&& binding_is(gp.bindings@[0], "ak47"@, Some("sample-recoil"@), Some((0, 0x05)), ExecutionMode::Hold, true)
    &&& binding_is(gp.bindings@[1], "lr300"@, Some("sample-recoil"@), Some((0, 0x06)), ExecutionMode::Hold, true)
    &&& binding_is(gp.bindings@[2], "mp5a4"@, None, None, ExecutionMode::Hold, false)
    &&& binding_is(gp.bindings@[3], "thompson"@, None, None, ExecutionMode::Hold, false)
    &&& binding_is(gp.bindings@[4], "custom"@, Some("sample-recoil"@), Some((0, 0x51)), ExecutionMode::Toggle, true)
    &&& binding_is(gp.bindings@[5], "m249"@, None, None, ExecutionMode::Hold, false)
}

fn game_rust(icons: &BundledIcons) -> (r: GameProfile)
    ensures
        is_rust_profile(r, icons.weapons@),
{
    let mut weapons: Vec<WeaponTemplate> = Vec::new();
    weapons.push(tpl_icon("ak47", "AK-47", "AR", "5.56", 600, 0x3F51EB85, wicon(icons, "rust", "ak47")));
    weapons.push(tpl_icon("lr300", "LR-300", "AR", "5.56", 600, 0x3F147AE1, wicon(icons, "rust", "lr300")));
    weapons.push(tpl_icon("mp5a4", "MP5A4", "SMG", "9mm", 800, 0x3EE147AE, wicon(icons, "rust", "mp5a4")));
    weapons.push(tpl_icon("thompson", "Thompson", "SMG", ".45", 600, 0x3F051EB8, wicon(icons, "rust", "thompson")));
    weapons.push(tpl_icon("custom", "Custom SMG", "SMG", "9mm", 750, 0x3EF5C28F, wicon(icons, "rust", "custom")));
    weapons.push(tpl_icon("m249", "M249", "LMG", "5.56", 700, 0x3F6147AE, wicon(icons, "rust", "m249")));
    let mut bindings: Vec<WeaponBinding> = Vec::new();
    bindings.push(bind("ak47", Some("sample-recoil"), Some((0, 0x05)), ExecutionMode::Hold, true));
    bindings.push(bind("lr300", Some("sample-recoil"), Some((0, 0x06)), ExecutionMode::Hold, true));
    bindings.push(bind("mp5a4", None, None, ExecutionMode::Hold, false));
    bindings.push(bind("thompson", None, None, ExecutionMode::Hold, false));
    bindings.push(bind("custom", Some("sample-recoil"), Some((0, 0x51)), ExecutionMode::Toggle, true));
    bindings.push(bind("m249", None, None, ExecutionMode::Hold, false));
    GameProfile {
        id: string_lit("rust"),
        display_name: string_lit("Rust"),
        subtitle: string_lit("Survival \u{b7} PvP"),
        profile_label: string_lit("PROFILE 01"),
        weapons,
        bindings,
    }
}

/// The built-in `cs2` profile.
pub open spec fn is_cs2_profile(gp: GameProfile, t: Seq<(String, String, String)>) -> bool {
    &&& gp.id@ == "cs2"@
    &&& gp.display_name@ == "Counter-Strike 2"@
    &&& gp.subtitle@ == "Tactical FPS \u{b7} Competitive"@
    &&& gp.profile_label@ == "PROFILE 07"@
    &&& gp.weapons@.len() == 6
    &&& gp.bindings@.len() == 6
    &&& weapon_is(gp.weapons@[0], "ak47cs"@, "AK-47"@, "Rifle"@, "7.62"@, 600, 0x3F3D70A4, icon_lookup(t, "cs2"@, "ak47cs"@))
    &&& weapon_is(gp.weapons@[1], "m4a4"@, "M4A4"@, "Rifle"@, "5.56"@, 666, 0x3F028F5C, icon_lookup(t, "cs2"@, "m4a4"@))
    &&& weapon_is(gp.weapons@[2], "m4a1s"@, "M4A1-S"@, "Rifle"@, "5.56"@, 600, 0x3ED70A3D, icon_lookup(t, "cs2"@, "m4a1s"@))
    &&& weapon_is(gp.weapons@[3], "famas"@, "FAMAS"@, "Rifle"@, "5.56"@, 666, 0x3EEB851F, icon_lookup(t, "cs2"@, "famas"@))
    &&& weapon_is(gp.weapons@[4], "galil"@, "Galil AR"@, "Rifle"@, "5.56"@, 666, 0x3F1C28F6, icon_lookup(t, "cs2"@, "galil"@))
    &&& weapon_is(gp.weapons@[5], "mp9"@, "MP9"@, "SMG"@, "9mm"@, 857, 0x3EA3D70A, icon_lookup(t, "cs2"@, "mp9"@))
    &&& binding_is(gp.bindings@[0], "ak47cs"@, Some("sample-recoil"@), Some((0, 0x05)), ExecutionMode::Hold, true)
    &&& binding_is(gp.bindings@[1], "m4a4"@, Some("sample-recoil"@), Some((0, 0x06)), ExecutionMode::Hold, true)
    &&& binding_is(gp.bindings@[2], "m4a1s"@, Some("sample-recoil"@), Some((0, 0x46)), ExecutionMode::Hold, true)
    &&& binding_is(gp.bindings@[3], "famas"@, None, None, ExecutionMode::Tap, false)
    &&& binding_is(gp.bindings@[4], "galil"@, None, None, ExecutionMode::Hold, false)
    &&& binding_is(gp.bindings@[5], "mp9"@, Some("sample-recoil"@), Some((0, 0x47)), ExecutionMode::Tap, true)
}

fn game_cs2(icons: &BundledIcons) -> (r: GameProfile)
    ensures
        is_cs2_profile(r, icons.weapons@),
{
    let mut weapons: Vec<WeaponTemplate> = Vec::new();
    weapons.push(tpl_icon("ak47cs", "AK-47", "Rifle", "7.62", 600, 0x3F3D70A4, wicon(icons, "cs2", "ak47cs")));
    weapons.push(tpl_icon("m4a4", "M4A4", "Rifle", "5.56", 666, 0x3F028F5C, wicon(icons, "cs2", "m4a4")));
    weapons.push(tpl_icon("m4a1s", "M4A1-S", "Rifle", "5.56", 600, 0x3ED70A3D, wicon(icons, "cs2", "m4a1s")));
    weapons.push(tpl_icon("famas", "FAMAS", "Rifle", "5.56", 666, 0x3EEB851F, wicon(icons, "cs2", "famas")));
    weapons.push(tpl_icon("galil", "Galil AR", "Rifle", "5.56", 666, 0x3F1C28F6, wicon(icons, "cs2", "galil")));
    weapons.push(tpl_icon("mp9", "MP9", "SMG", "9mm", 857, 0x3EA3D70A, wicon(icons, "cs2", "mp9")));
    let mut bindings: Vec<WeaponBinding> = Vec::new();
    bindings.push(bind("ak47cs", Some("sample-recoil"), Some((0, 0x05)), ExecutionMode::Hold, true));
    bindings.push(bind("m4a4", Some("sample-recoil"), Some((0, 0x06)), ExecutionMode::Hold, true));
    bindings.push(bind("m4a1s", Some("sample-recoil"), Some((0, 0x46)), ExecutionMode::Hold, true));
    bindings.push(bind("famas", None, None, ExecutionMode::Tap, false));
    bindings.push(bind("galil", None, None, ExecutionMode::Hold, false));
    bindings.push(bind("mp9", Some("sample-recoil"), Some((0, 0x47)), ExecutionMode::Tap, true));
    GameProfile {
        id: string_lit("cs2"),
        display_name: string_lit("Counter-Strike 2"),
        subtitle: string_lit("Tactical FPS \u{b7} Competitive"),
        profile_label: string_lit("PROFILE 07"),
        weapons,
        bindings,
    }
}

/// The built-in configuration with the bundled weapon icons `t`: the sample
/// macro and the three game profiles.
pub open spec fn is_default_config_with(c: AppConfig, t: Seq<(String, String, String)>) -> bool {
    &&& c.schema_version == 1
    &&& c.master_enabled
    &&& c.active_game@ == "pubg"@
    &&& c.fire_button_vk == 0x01
    &&& c.jitter_ms == Some((0u64, 3u64))
    &&& c.macros@.len() == 1
    &&& c.macros@[0].id@ == "sample-recoil"@
    &&& c.macros@[0].name@ == "Sample pattern"@
    &&& c.macros@[0].version == 1
    &&& step_views(c.macros@[0].steps@) == seq![StepView::MouseDown("left"@), StepView::Delay(32), StepView::MouseUp("left"@)]
    &&& c.game_profiles@.len() == 3
    &&& is_pubg_profile(c.game_profiles@[0], t)
    &&& is_rust_profile(c.game_profiles@[1], t)
    &&& is_cs2_profile(c.game_profiles@[2], t)
}

/// The built-in configuration without bundled icons.
pub open spec fn is_default_config(c: AppConfig) -> bool {
    is_default_config_with(c, Seq::empty())
}

/// The configuration created on first launch, without bundled icons.
pub fn default_config() -> (r: AppConfig)
    ensures
        is_default_config(r),
{
    let none = BundledIcons::none();
    default_config_with(&none)
}

/// The configuration created on first launch, the weapons carrying their
/// bundled icons.
pub fn default_config_with(icons: &BundledIcons) -> (r: AppConfig)
    ensures
        is_default_config_with(r, icons.weapons@),
{
    let mut steps: Vec<MacroStep> = Vec::new();
    steps.push(MacroStep::MouseDown { button: string_lit("left") });
    steps.push(MacroStep::Delay { ms: 32 });
    steps.push(MacroStep::MouseUp { button: string_lit("left") });
    assert(step_views(steps@) == seq![StepView::MouseDown("left"@), StepView::Delay(32), StepView::MouseUp("left"@)]);
    let sample_macro = MacroDefinition {
        id: string_lit("sample-recoil"),
        name: string_lit("Sample pattern"),
        version: 1,
        steps,
    };
    let mut macros: Vec<MacroDefinition> = Vec::new();
    macros.push(sample_macro);
    let mut game_profiles: Vec<GameProfile> = Vec::new();
    game_profiles.push(game_pubg(icons));
    game_profiles.push(game_rust(icons));
    game_profiles.push(game_cs2(icons));
    AppConfig {
        schema_version: 1,
        master_enabled: true,
        active_game: string_lit("pubg"),
        fire_button_vk: 0x01,
        jitter_ms: Some((0, 3)),
        macros,
        game_profiles,
    }
}


/// Index of the first weapon with identifier `id`.
pub open spec fn find_weapon(ws: Seq<WeaponTemplate>, id: Seq<char>) -> Option<int>
    decreases ws.len(),
{
    if ws.len() == 0 {
        None
    } else {
        match find_weapon(ws.drop_last(), id) {
            Some(i) => Some(i),
            None => if ws.last().id@ == id {
                Some(ws.len() - 1)
            } else {
                None
            },
        }
    }
}

pub(crate) proof fn lemma_find_weapon(ws: Seq<WeaponTemplate>, id: Seq<char>)
    ensures
        find_weapon(ws, id) matches Some(i) ==> 0 <= i < ws.len() && ws[i].id@ == id,
    decreases ws.len(),
{
    if ws.len() > 0 {
        lemma_find_weapon(ws.drop_last(), id);
    }
}

proof fn lemma_find_weapon_prefix(ws: Seq<WeaponTemplate>, i: int, id: Seq<char>)
    requires
        0 <= i <= ws.len(),
        find_weapon(ws.take(i), id) is Some,
    ensures
        find_weapon(ws, id) == find_weapon(ws.take(i), id),
    decreases ws.len() - i,
{
    if i < ws.len() {
        assert(ws.take(i + 1).drop_last() == ws.take(i));
        lemma_find_weapon_prefix(ws, i + 1, id);
    } else {
        assert(ws.take(i) == ws);
    }
}

fn weapon_index(ws: &Vec<WeaponTemplate>, id: &str) -> (r: Option<usize>)
    ensures
        r matches Some(i) ==> find_weapon(ws@, id@) == Some(i as int),
        r is None ==> find_weapon(ws@, id@) is None,
{
    let mut i: usize = 0;
    assert(ws@.take(0) == Seq::<WeaponTemplate>::empty());
    while i < ws.len()
        invariant
            i <= ws@.len(),
            find_weapon(ws@.take(i as int), id@) is None,
        decreases ws@.len() - i,
    {
        assert(ws@.take(i + 1).drop_last() == ws@.take(i as int));
        if str_eq(ws[i].id.as_str(), id) {
            proof {
                lemma_find_weapon_prefix(ws@, i + 1, id@);
            }
            return Some(i);
        }
        i = i + 1;
    }
    assert(ws@.take(ws@.len() as int) == ws@);
    None
}

/// The bundled icon of a weapon of a game in the built-in profiles.
pub open spec fn bundled_icon(defaults: Seq<GameProfile>, game: Seq<char>, weapon: Seq<char>) -> Option<String> {
    match find_game(defaults, game) {
        None => None,
        Some(g) => match find_weapon(defaults[g].weapons@, weapon) {
            None => None,
            Some(k) => defaults[g].weapons@[k].icon_url,
        },
    }
}

/// An icon URL that a bundled icon supersedes: none, a remote URL, or an
/// `assets/` path.
pub open spec fn icon_replaceable(u: Option<String>) -> bool {
    match u {
        None => true,
        Some(s) => starts_with(s@, "http://"@) || starts_with(s@, "https://"@) || starts_with(s@, "assets/"@),
    }
}

/// Whether syncing with the bundled icon changes a weapon.
pub open spec fn icon_changes(w: WeaponTemplate, bundled: Option<String>) -> bool {
    match bundled {
        Some(b) => icon_replaceable(w.icon_url) && opt_view(w.icon_url) != Some(b@),
        None => false,
    }
}

pub open spec fn icon_after(w: WeaponTemplate, bundled: Option<String>) -> WeaponTemplate {
    if icon_changes(w, bundled) {
        WeaponTemplate { icon_url: bundled, ..w }
    } else {
        w
    }
}

/// `new` is profile `old` with the bundled icons applied.
pub open spec fn profile_icons_applied(old: GameProfile, new: GameProfile, defaults: Seq<GameProfile>) -> bool {
    &&& new.id == old.id
    &&& new.display_name == old.display_name
    &&& new.subtitle == old.subtitle
    &&& new.profile_label == old.profile_label
    &&& new.bindings@ == old.bindings@
    &&& new.weapons@.len() == old.weapons@.len()
    &&& forall|k: int| 0 <= k < old.weapons@.len() ==> #[trigger] new.weapons@[k] == icon_after(
        old.weapons@[k],
        bundled_icon(defaults, old.id@, old.weapons@[k].id@),
    )
}

pub open spec fn profile_icon_change(gp: GameProfile, defaults: Seq<GameProfile>) -> bool {
    exists|k: int| 0 <= k < gp.weapons@.len() && icon_changes(#[trigger] gp.weapons@[k], bundled_icon(defaults, gp.id@, gp.weapons@[k].id@))
}

/// `new` is `old` with the bundled icons applied to every profile.
pub open spec fn icons_applied(old: AppConfig, new: AppConfig, defaults: Seq<GameProfile>) -> bool {
    &&& settings_same(new, old)
    &&& new.macros@ == old.macros@
    &&& new.game_profiles@.len() == old.game_profiles@.len()
    &&& forall|g: int| 0 <= g < old.game_profiles@.len() ==> profile_icons_applied(old.game_profiles@[g], #[trigger] new.game_profiles@[g], defaults)
}

pub open spec fn any_icon_change(gps: Seq<GameProfile>, defaults: Seq<GameProfile>) -> bool {
    exists|g: int| 0 <= g < gps.len() && profile_icon_change(#[trigger] gps[g], defaults)
}

/// Applying the bundled icons a second time changes nothing.
pub proof fn lemma_icons_idempotent(c0: AppConfig, c1: AppConfig, c2: AppConfig, defaults: Seq<GameProfile>)
    requires
        icons_applied(c0, c1, defaults),
        icons_applied(c1, c2, defaults),
    ensures
        !any_icon_change(c1.game_profiles@, defaults),
        crate::types::config_same(c2, c1),
{
    assert forall|g: int| 0 <= g < c1.game_profiles@.len() implies
        !profile_icon_change(#[trigger] c1.game_profiles@[g], defaults)
            && crate::types::profile_same(c2.game_profiles@[g], c1.game_profiles@[g]) by {
        let p0 = c0.game_profiles@[g];
        let p1 = c1.game_profiles@[g];
        let p2 = c2.game_profiles@[g];
        assert forall|k: int| 0 <= k < p1.weapons@.len() implies
            !icon_changes(#[trigger] p1.weapons@[k], bundled_icon(defaults, p1.id@, p1.weapons@[k].id@))
                && p2.weapons@[k] == p1.weapons@[k] by {
            assert(p1.weapons@[k] == icon_after(p0.weapons@[k], bundled_icon(defaults, p0.id@, p0.weapons@[k].id@)));
        }
        assert(p2.weapons@ == p1.weapons@);
    }
    assert forall|i: int| 0 <= i < c1.macros@.len() implies
        crate::types::macro_same(#[trigger] c2.macros@[i], c1.macros@[i]) by {}
}

proof fn lemma_bundled_same(d1: AppConfig, d2: AppConfig, t: Seq<(String, String, String)>, game: Seq<char>, weapon: Seq<char>)
    requires
        is_default_config_with(d1, t),
        is_default_config_with(d2, t),
    ensures
        opt_view(bundled_icon(d1.game_profiles@, game, weapon)) == opt_view(bundled_icon(d2.game_profiles@, game, weapon)),
{
    lemma_default_ids_same_with(d1, t, d2, t);
    let a = d1.game_profiles@;
    let b = d2.game_profiles@;
    assert forall|k: int| 0 <= k < a.len() implies (#[trigger] a[k]).id@ == b[k].id@ by {}
    crate::commands::lemma_find_game_same_ids(a, b, game);
    lemma_find_game(a, game);
    match find_game(a, game) {
        None => {},
        Some(g) => {
            assert(weapon_ids_same(a[g].weapons@, b[g].weapons@));
            lemma_find_weapon_same(a[g].weapons@, b[g].weapons@, weapon);
            lemma_find_weapon(a[g].weapons@, weapon);
        },
    }
}

/// Applying the bundled icons twice, each call with its own built-in
/// configuration for the same bundled images: the second call changes
/// nothing.
pub proof fn lemma_default_icons_twice(
    c0: AppConfig,
    c1: AppConfig,
    c2: AppConfig,
    d1: AppConfig,
    d2: AppConfig,
    t: Seq<(String, String, String)>,
)
    requires
        is_default_config_with(d1, t),
        is_default_config_with(d2, t),
        icons_applied(c0, c1, d1.game_profiles@),
        icons_applied(c1, c2, d2.game_profiles@),
    ensures
        !any_icon_change(c1.game_profiles@, d2.game_profiles@),
        crate::types::config_same(c2, c1),
{
    let e1 = d1.game_profiles@;
    let e2 = d2.game_profiles@;
    assert forall|g: int| 0 <= g < c1.game_profiles@.len() implies
        !profile_icon_change(#[trigger] c1.game_profiles@[g], e2)
            && crate::types::profile_same(c2.game_profiles@[g], c1.game_profiles@[g]) by {
        let p0 = c0.game_profiles@[g];
        let p1 = c1.game_profiles@[g];
        let p2 = c2.game_profiles@[g];
        assert forall|k: int| 0 <= k < p1.weapons@.len() implies
            !icon_changes(#[trigger] p1.weapons@[k], bundled_icon(e2, p1.id@, p1.weapons@[k].id@))
                && p2.weapons@[k] == p1.weapons@[k] by {
            let b1 = bundled_icon(e1, p0.id@, p0.weapons@[k].id@);
            assert(p1.weapons@[k] == icon_after(p0.weapons@[k], b1));
            lemma_bundled_same(d1, d2, t, p0.id@, p0.weapons@[k].id@);
        }
        assert(p2.weapons@ == p1.weapons@);
    }
    assert forall|i: int| 0 <= i < c1.macros@.len() implies
        crate::types::macro_same(#[trigger] c2.macros@[i], c1.macros@[i]) by {}
}

fn replaceable(u: &Option<String>) -> (r: bool)
    ensures
        r == icon_replaceable(*u),
{
    match u {
        None => true,
        Some(s) => {
            let c = chars_of(s.as_str());
            starts_with_lit(&c, "http://") || starts_with_lit(&c, "https://") || starts_with_lit(&c, "assets/")
        },
    }
}

fn same_icon(u: &Option<String>, b: &String) -> (r: bool)
    ensures
        r == (opt_view(*u) == Some(b@)),
{
    match u {
        None => false,
        Some(s) => str_eq(s.as_str(), b.as_str()),
    }
}

fn apply_icons_profile(gp: &mut GameProfile, defaults: &Vec<GameProfile>) -> (changed: bool)
    ensures
        profile_icons_applied(*old(gp), *final(gp), defaults@),
        changed == profile_icon_change(*old(gp), defaults@),
{
    let ghost orig = *gp;
    let dg = game_index(defaults, gp.id.as_str());
    proof {
        lemma_find_game(defaults@, gp.id@);
    }
    let mut changed = false;
    let mut k: usize = 0;
    while k < gp.weapons.len()
        invariant
            gp.id == orig.id,
            gp.display_name == orig.display_name,
            gp.subtitle == orig.subtitle,
            gp.profile_label == orig.profile_label,
            gp.bindings@ == orig.bindings@,
            gp.weapons@.len() == orig.weapons@.len(),
            k <= gp.weapons@.len(),
            dg matches Some(i) ==> find_game(defaults@, orig.id@) == Some(i as int) && i < defaults@.len(),
            dg is None ==> find_game(defaults@, orig.id@) is None,
            forall|j: int| 0 <= j < k ==> #[trigger] gp.weapons@[j] == icon_after(orig.weapons@[j], bundled_icon(defaults@, orig.id@, orig.weapons@[j].id@)),
            forall|j: int| k <= j < gp.weapons@.len() ==> #[trigger] gp.weapons@[j] == orig.weapons@[j],
            changed == exists|j: int| 0 <= j < k && icon_changes(#[trigger] orig.weapons@[j], bundled_icon(defaults@, orig.id@, orig.weapons@[j].id@)),
        decreases gp.weapons@.len() - k,
    {
        let ghost w0 = orig.weapons@[k as int];
        let ghost bundled = bundled_icon(defaults@, orig.id@, w0.id@);
        let bundled_exec: Option<&String> = match dg {
            None => None,
            Some(d) => {
                proof {
                    lemma_find_weapon(defaults@[d as int].weapons@, w0.id@);
                }
                match weapon_index(&defaults[d].weapons, gp.weapons[k].id.as_str()) {
                    None => None,
                    Some(wi) => match &defaults[d].weapons[wi].icon_url {
                        Some(b) => Some(b),
                        None => None,
                    },
                }
            },
        };
        assert(match bundled_exec { Some(b) => bundled == Some(*b), None => bundled is None });
        let mut this_change = false;
        if let Some(b) = bundled_exec {
            if replaceable(&gp.weapons[k].icon_url) && !same_icon(&gp.weapons[k].icon_url, b) {
                gp.weapons[k].icon_url = Some(b.clone());
                this_change = true;
            }
        }
        assert(this_change == icon_changes(w0, bundled));
        assert(gp.weapons@[k as int] == icon_after(w0, bundled));
        changed = changed || this_change;
        k = k + 1;
    }
    changed
}

/// Applies the bundled icons of `defaults` to the weapons of `cfg`: a weapon
/// whose built-in counterpart (same game, same weapon) has an icon takes it
/// when its own icon is absent, remote or under `assets/`. Returns whether
/// any icon changed.
pub fn apply_weapon_icons_from(cfg: &mut AppConfig, defaults: &AppConfig) -> (changed: bool)
    ensures
        icons_applied(*old(cfg), *final(cfg), defaults.game_profiles@),
        changed == any_icon_change(old(cfg).game_profiles@, defaults.game_profiles@),
{
    let ghost orig = *cfg;
    let mut changed = false;
    let mut g: usize = 0;
    while g < cfg.game_profiles.len()
        invariant
            settings_same(*cfg, orig),
            cfg.macros@ == orig.macros@,
            cfg.game_profiles@.len() == orig.game_profiles@.len(),
            g <= cfg.game_profiles@.len(),
            forall|j: int| 0 <= j < g ==> profile_icons_applied(orig.game_profiles@[j], #[trigger] cfg.game_profiles@[j], defaults.game_profiles@),
            forall|j: int| g <= j < cfg.game_profiles@.len() ==> #[trigger] cfg.game_profiles@[j] == orig.game_profiles@[j],
            changed == exists|j: int| 0 <= j < g && profile_icon_change(#[trigger] orig.game_profiles@[j], defaults.game_profiles@),
        decreases cfg.game_profiles@.len() - g,
    {
        let c = apply_icons_profile(&mut cfg.game_profiles[g], &defaults.game_profiles);
        changed = changed || c;
        g = g + 1;
    }
    changed
}

/// Syncs `icon_url` from the built-in defaults with bundled icons `icons`
/// for each weapon (by game + id). Returns `true` if any value changed.
pub fn apply_default_weapon_icons(cfg: &mut AppConfig, icons: &BundledIcons) -> (changed: bool)
    ensures
        exists|d: AppConfig| is_default_config_with(d, icons.weapons@) && icons_applied(*old(cfg), *final(cfg), d.game_profiles@)
            && changed == any_icon_change(old(cfg).game_profiles@, d.game_profiles@),
{
    let d = default_config_with(icons);
    apply_weapon_icons_from(cfg, &d)
}


/// Whether a weapon identifier belongs to the built-in profile `def_ws`.
pub open spec fn known(def_ws: Seq<WeaponTemplate>, id: Seq<char>) -> bool {
    find_weapon(def_ws, id) is Some
}

/// The bindings whose weapon belongs to the built-in profile, in order.
pub open spec fn kept_bindings(bs: Seq<WeaponBinding>, def_ws: Seq<WeaponTemplate>) -> Seq<WeaponBinding>
    decreases bs.len(),
{
    if bs.len() == 0 {
        bs
    } else {
        let p = kept_bindings(bs.drop_last(), def_ws);
        if known(def_ws, bs.last().weapon_id@) {
            p.push(bs.last())
        } else {
            p
        }
    }
}

/// The weapons that belong to the built-in profile, in order.
pub open spec fn kept_weapons(ws: Seq<WeaponTemplate>, def_ws: Seq<WeaponTemplate>) -> Seq<WeaponTemplate>
    decreases ws.len(),
{
    if ws.len() == 0 {
        ws
    } else {
        let p = kept_weapons(ws.drop_last(), def_ws);
        if known(def_ws, ws.last().id@) {
            p.push(ws.last())
        } else {
            p
        }
    }
}

/// The weapons whose built-in position is `k`, in order.
pub open spec fn weapons_at(ws: Seq<WeaponTemplate>, def_ws: Seq<WeaponTemplate>, k: int) -> Seq<WeaponTemplate>
    decreases ws.len(),
{
    if ws.len() == 0 {
        ws
    } else {
        let p = weapons_at(ws.drop_last(), def_ws, k);
        if find_weapon(def_ws, ws.last().id@) == Some(k) {
            p.push(ws.last())
        } else {
            p
        }
    }
}

/// The weapons of the first `n` built-in positions, by position, each
/// position's weapons in the order they had.
pub open spec fn ordered_upto(ws: Seq<WeaponTemplate>, def_ws: Seq<WeaponTemplate>, n: nat) -> Seq<WeaponTemplate>
    decreases n,
{
    if n == 0 {
        Seq::empty()
    } else {
        ordered_upto(ws, def_ws, (n - 1) as nat) + weapons_at(ws, def_ws, n - 1)
    }
}

/// The known weapons, stably sorted by their position in the built-in profile.
pub open spec fn ordered_weapons(ws: Seq<WeaponTemplate>, def_ws: Seq<WeaponTemplate>) -> Seq<WeaponTemplate> {
    ordered_upto(ws, def_ws, def_ws.len())
}

/// `new` is profile `old` synced with the built-in profiles `defaults`.
pub open spec fn profile_synced(old: GameProfile, new: GameProfile, defaults: Seq<GameProfile>) -> bool {
    &&& new.id == old.id
    &&& new.display_name == old.display_name
    &&& new.subtitle == old.subtitle
    &&& new.profile_label == old.profile_label
    &&& match find_game(defaults, old.id@) {
        None => new.weapons@ == old.weapons@ && new.bindings@ == old.bindings@,
        Some(d) => new.weapons@ == ordered_weapons(old.weapons@, defaults[d].weapons@)
            && new.bindings@ == kept_bindings(old.bindings@, defaults[d].weapons@),
    }
}

/// Whether syncing drops a weapon or a binding of the profile.
pub open spec fn profile_sync_drops(gp: GameProfile, defaults: Seq<GameProfile>) -> bool {
    match find_game(defaults, gp.id@) {
        None => false,
        Some(d) => kept_weapons(gp.weapons@, defaults[d].weapons@).len() != gp.weapons@.len()
            || kept_bindings(gp.bindings@, defaults[d].weapons@).len() != gp.bindings@.len(),
    }
}

/// `new` is `old` with every profile synced with `defaults`.
pub open spec fn config_synced(old: AppConfig, new: AppConfig, defaults: Seq<GameProfile>) -> bool {
    &&& settings_same(new, old)
    &&& new.macros@ == old.macros@
    &&& new.game_profiles@.len() == old.game_profiles@.len()
    &&& forall|g: int| 0 <= g < old.game_profiles@.len() ==> profile_synced(old.game_profiles@[g], #[trigger] new.game_profiles@[g], defaults)
}

pub open spec fn any_sync_drop(gps: Seq<GameProfile>, defaults: Seq<GameProfile>) -> bool {
    exists|g: int| 0 <= g < gps.len() && profile_sync_drops(#[trigger] gps[g], defaults)
}

proof fn lemma_weapons_at_concat(a: Seq<WeaponTemplate>, b: Seq<WeaponTemplate>, def_ws: Seq<WeaponTemplate>, k: int)
    ensures
        weapons_at(a + b, def_ws, k) == weapons_at(a, def_ws, k) + weapons_at(b, def_ws, k),
    decreases b.len(),
{
    if b.len() == 0 {
        assert(a + b == a);
    } else {
        assert((a + b).drop_last() == a + b.drop_last());
        assert((a + b).last() == b.last());
        lemma_weapons_at_concat(a, b.drop_last(), def_ws, k);
    }
}

proof fn lemma_weapons_at_pos(ws: Seq<WeaponTemplate>, def_ws: Seq<WeaponTemplate>, k: int)
    ensures
        forall|i: int| 0 <= i < weapons_at(ws, def_ws, k).len() ==>
            find_weapon(def_ws, (#[trigger] weapons_at(ws, def_ws, k)[i]).id@) == Some(k),
    decreases ws.len(),
{
    if ws.len() > 0 {
        lemma_weapons_at_pos(ws.drop_last(), def_ws, k);
    }
}

proof fn lemma_weapons_at_twice(ws: Seq<WeaponTemplate>, def_ws: Seq<WeaponTemplate>, j: int, k: int)
    ensures
        weapons_at(weapons_at(ws, def_ws, j), def_ws, k)
            == (if j == k { weapons_at(ws, def_ws, k) } else { Seq::<WeaponTemplate>::empty() }),
    decreases ws.len(),
{
    if ws.len() > 0 {
        lemma_weapons_at_twice(ws.drop_last(), def_ws, j, k);
        let p = weapons_at(ws.drop_last(), def_ws, j);
        if find_weapon(def_ws, ws.last().id@) == Some(j) {
            assert(weapons_at(ws, def_ws, j).drop_last() == p);
        }
    }
}

proof fn lemma_ordered_upto_at(ws: Seq<WeaponTemplate>, def_ws: Seq<WeaponTemplate>, n: nat, k: int)
    ensures
        weapons_at(ordered_upto(ws, def_ws, n), def_ws, k)
            == (if 0 <= k < n { weapons_at(ws, def_ws, k) } else { Seq::<WeaponTemplate>::empty() }),
    decreases n,
{
    if n > 0 {
        lemma_ordered_upto_at(ws, def_ws, (n - 1) as nat, k);
        lemma_weapons_at_concat(ordered_upto(ws, def_ws, (n - 1) as nat), weapons_at(ws, def_ws, n - 1), def_ws, k);
        lemma_weapons_at_twice(ws, def_ws, n - 1, k);
        let e = Seq::<WeaponTemplate>::empty();
        assert(e + e == e);
        assert(weapons_at(ws, def_ws, k) + e == weapons_at(ws, def_ws, k));
        assert(e + weapons_at(ws, def_ws, k) == weapons_at(ws, def_ws, k));
    } else {
        assert(weapons_at(Seq::<WeaponTemplate>::empty(), def_ws, k) == Seq::<WeaponTemplate>::empty());
    }
}

proof fn lemma_ordered_upto_sorted(ws: Seq<WeaponTemplate>, def_ws: Seq<WeaponTemplate>, n: nat)
    ensures
        forall|i: int| 0 <= i < ordered_upto(ws, def_ws, n).len() ==>
            ((#[trigger] find_weapon(def_ws, ordered_upto(ws, def_ws, n)[i].id@)) matches Some(p) && 0 <= p < n),
        forall|i: int, j: int| 0 <= i < j < ordered_upto(ws, def_ws, n).len() ==>
            find_weapon(def_ws, (#[trigger] ordered_upto(ws, def_ws, n)[i]).id@)->0
                <= find_weapon(def_ws, (#[trigger] ordered_upto(ws, def_ws, n)[j]).id@)->0,
    decreases n,
{
    if n > 0 {
        let m = (n - 1) as nat;
        lemma_ordered_upto_sorted(ws, def_ws, m);
        lemma_weapons_at_pos(ws, def_ws, m as int);
        let a = ordered_upto(ws, def_ws, m);
        let b = weapons_at(ws, def_ws, m as int);
        let o = ordered_upto(ws, def_ws, n);
        assert(o == a + b);
        assert forall|i: int| 0 <= i < o.len() implies
            ((#[trigger] find_weapon(def_ws, o[i].id@)) matches Some(p) && 0 <= p < n) by {
            if i < a.len() {
                assert(o[i] == a[i]);
                assert(find_weapon(def_ws, a[i].id@) matches Some(p) && 0 <= p < m);
            } else {
                assert(o[i] == b[i - a.len()]);
                assert(find_weapon(def_ws, b[i - a.len()].id@) == Some(m as int));
            }
        }
        assert forall|i: int, j: int| 0 <= i < j < o.len() implies
            find_weapon(def_ws, (#[trigger] o[i]).id@)->0 <= find_weapon(def_ws, (#[trigger] o[j]).id@)->0 by {
            if j < a.len() {
                assert(o[i] == a[i]);
                assert(o[j] == a[j]);
            } else if i < a.len() {
                assert(o[i] == a[i]);
                assert(find_weapon(def_ws, a[i].id@) matches Some(p) && 0 <= p < m);
                assert(o[j] == b[j - a.len()]);
                assert(find_weapon(def_ws, b[j - a.len()].id@) == Some(m as int));
            } else {
                assert(o[i] == b[i - a.len()]);
                assert(o[j] == b[j - a.len()]);
                assert(find_weapon(def_ws, b[i - a.len()].id@) == Some(m as int));
                assert(find_weapon(def_ws, b[j - a.len()].id@) == Some(m as int));
            }
        }
    }
}

/// Syncing orders the weapons of a profile by their position in the built-in
/// profile, keeps only weapons that the built-in profile has, and keeps the
/// weapons of each built-in position in the order they had.
pub proof fn lemma_sync_order(ws: Seq<WeaponTemplate>, def_ws: Seq<WeaponTemplate>)
    ensures
        forall|i: int| 0 <= i < ordered_weapons(ws, def_ws).len() ==>
            known(def_ws, (#[trigger] ordered_weapons(ws, def_ws)[i]).id@),
        forall|i: int, j: int| 0 <= i < j < ordered_weapons(ws, def_ws).len() ==>
            find_weapon(def_ws, (#[trigger] ordered_weapons(ws, def_ws)[i]).id@)->0
                <= find_weapon(def_ws, (#[trigger] ordered_weapons(ws, def_ws)[j]).id@)->0,
        forall|k: int| 0 <= k < def_ws.len() ==>
            #[trigger] weapons_at(ordered_weapons(ws, def_ws), def_ws, k) == weapons_at(ws, def_ws, k),
{
    lemma_ordered_upto_sorted(ws, def_ws, def_ws.len());
    let o = ordered_weapons(ws, def_ws);
    assert forall|i: int| 0 <= i < o.len() implies known(def_ws, (#[trigger] o[i]).id@) by {
        assert(find_weapon(def_ws, o[i].id@) is Some);
    }
    assert forall|k: int| 0 <= k < def_ws.len() implies
        #[trigger] weapons_at(o, def_ws, k) == weapons_at(ws, def_ws, k) by {
        lemma_ordered_upto_at(ws, def_ws, def_ws.len(), k);
    }
}

proof fn lemma_ordered_upto_same(a: Seq<WeaponTemplate>, b: Seq<WeaponTemplate>, def_ws: Seq<WeaponTemplate>, n: nat)
    requires
        n <= def_ws.len(),
        forall|k: int| 0 <= k < def_ws.len() ==> #[trigger] weapons_at(a, def_ws, k) == weapons_at(b, def_ws, k),
    ensures
        ordered_upto(a, def_ws, n) == ordered_upto(b, def_ws, n),
    decreases n,
{
    if n > 0 {
        lemma_ordered_upto_same(a, b, def_ws, (n - 1) as nat);
        assert(weapons_at(a, def_ws, n - 1) == weapons_at(b, def_ws, n - 1));
    }
}

proof fn lemma_kept_weapons_all(ws: Seq<WeaponTemplate>, def_ws: Seq<WeaponTemplate>)
    requires
        forall|i: int| 0 <= i < ws.len() ==> known(def_ws, (#[trigger] ws[i]).id@),
    ensures
        kept_weapons(ws, def_ws) == ws,
    decreases ws.len(),
{
    if ws.len() > 0 {
        assert(known(def_ws, ws[ws.len() - 1].id@));
        lemma_kept_weapons_all(ws.drop_last(), def_ws);
        assert(ws.drop_last().push(ws.last()) == ws);
    }
}

proof fn lemma_kept_bindings_known(bs: Seq<WeaponBinding>, def_ws: Seq<WeaponTemplate>)
    ensures
        forall|i: int| 0 <= i < kept_bindings(bs, def_ws).len() ==>
            known(def_ws, (#[trigger] kept_bindings(bs, def_ws)[i]).weapon_id@),
    decreases bs.len(),
{
    if bs.len() > 0 {
        lemma_kept_bindings_known(bs.drop_last(), def_ws);
    }
}

proof fn lemma_kept_bindings_all(bs: Seq<WeaponBinding>, def_ws: Seq<WeaponTemplate>)
    requires
        forall|i: int| 0 <= i < bs.len() ==> known(def_ws, (#[trigger] bs[i]).weapon_id@),
    ensures
        kept_bindings(bs, def_ws) == bs,
    decreases bs.len(),
{
    if bs.len() > 0 {
        assert(known(def_ws, bs[bs.len() - 1].weapon_id@));
        lemma_kept_bindings_all(bs.drop_last(), def_ws);
        assert(bs.drop_last().push(bs.last()) == bs);
    }
}

/// Syncing a profile a second time drops nothing and changes nothing.
pub proof fn lemma_sync_profile_idempotent(p0: GameProfile, p1: GameProfile, p2: GameProfile, defaults: Seq<GameProfile>)
    requires
        profile_synced(p0, p1, defaults),
        profile_synced(p1, p2, defaults),
    ensures
        !profile_sync_drops(p1, defaults),
        crate::types::profile_same(p2, p1),
{
    match find_game(defaults, p0.id@) {
        None => {},
        Some(d) => {
            let def_ws = defaults[d].weapons@;
            let o = p1.weapons@;
            lemma_sync_order(p0.weapons@, def_ws);
            lemma_kept_weapons_all(o, def_ws);
            lemma_kept_bindings_known(p0.bindings@, def_ws);
            lemma_kept_bindings_all(p1.bindings@, def_ws);
            assert forall|k: int| 0 <= k < def_ws.len() implies
                #[trigger] weapons_at(o, def_ws, k) == weapons_at(p0.weapons@, def_ws, k) by {}
            lemma_ordered_upto_same(o, p0.weapons@, def_ws, def_ws.len());
        },
    }
}

/// Syncing a configuration a second time drops nothing and changes nothing.
pub proof fn lemma_sync_idempotent(c0: AppConfig, c1: AppConfig, c2: AppConfig, defaults: Seq<GameProfile>)
    requires
        config_synced(c0, c1, defaults),
        config_synced(c1, c2, defaults),
    ensures
        !any_sync_drop(c1.game_profiles@, defaults),
        crate::types::config_same(c2, c1),
{
    assert forall|g: int| 0 <= g < c1.game_profiles@.len() implies
        !profile_sync_drops(#[trigger] c1.game_profiles@[g], defaults)
            && crate::types::profile_same(c2.game_profiles@[g], c1.game_profiles@[g]) by {
        lemma_sync_profile_idempotent(c0.game_profiles@[g], c1.game_profiles@[g], c2.game_profiles@[g], defaults);
    }
    assert forall|i: int| 0 <= i < c1.macros@.len() implies
        crate::types::macro_same(#[trigger] c2.macros@[i], c1.macros@[i]) by {}
}

/// Whether two weapon lists have the same identifiers, position by position.
pub open spec fn weapon_ids_same(a: Seq<WeaponTemplate>, b: Seq<WeaponTemplate>) -> bool {
    a.len() == b.len() && forall|k: int| 0 <= k < a.len() ==> (#[trigger] a[k]).id@ == b[k].id@
}

/// Whether two profile lists have the same game identifiers and, game by
/// game, the same weapon identifiers.
pub open spec fn profile_ids_same(a: Seq<GameProfile>, b: Seq<GameProfile>) -> bool {
    a.len() == b.len() && forall|g: int| 0 <= g < a.len() ==> (#[trigger] a[g]).id@ == b[g].id@
        && weapon_ids_same(a[g].weapons@, b[g].weapons@)
}

proof fn lemma_find_weapon_same(a: Seq<WeaponTemplate>, b: Seq<WeaponTemplate>, id: Seq<char>)
    requires
        weapon_ids_same(a, b),
    ensures
        find_weapon(a, id) == find_weapon(b, id),
    decreases a.len(),
{
    if a.len() > 0 {
        assert(a[a.len() - 1].id@ == b[b.len() - 1].id@);
        assert forall|k: int| 0 <= k < a.drop_last().len() implies (#[trigger] a.drop_last()[k]).id@ == b.drop_last()[k].id@ by {
            assert(a[k].id@ == b[k].id@);
        }
        lemma_find_weapon_same(a.drop_last(), b.drop_last(), id);
    }
}

proof fn lemma_sync_parts_same(ws: Seq<WeaponTemplate>, bs: Seq<WeaponBinding>, a: Seq<WeaponTemplate>, b: Seq<WeaponTemplate>)
    requires
        weapon_ids_same(a, b),
    ensures
        kept_bindings(bs, a) == kept_bindings(bs, b),
        kept_weapons(ws, a) == kept_weapons(ws, b),
        ordered_weapons(ws, a) == ordered_weapons(ws, b),
    decreases ws.len() + bs.len(),
{
    if bs.len() > 0 {
        lemma_sync_parts_same(ws, bs.drop_last(), a, b);
        lemma_find_weapon_same(a, b, bs.last().weapon_id@);
    }
    if ws.len() > 0 {
        lemma_sync_parts_same(ws.drop_last(), bs, a, b);
        lemma_find_weapon_same(a, b, ws.last().id@);
    }
    assert forall|k: int| #[trigger] weapons_at(ws, a, k) == weapons_at(ws, b, k) by {
        lemma_weapons_at_same(ws, a, b, k);
    }
    lemma_ordered_upto_defs_same(ws, a, b, a.len());
}

proof fn lemma_weapons_at_same(ws: Seq<WeaponTemplate>, a: Seq<WeaponTemplate>, b: Seq<WeaponTemplate>, k: int)
    requires
        weapon_ids_same(a, b),
    ensures
        weapons_at(ws, a, k) == weapons_at(ws, b, k),
    decreases ws.len(),
{
    if ws.len() > 0 {
        lemma_weapons_at_same(ws.drop_last(), a, b, k);
        lemma_find_weapon_same(a, b, ws.last().id@);
    }
}

proof fn lemma_ordered_upto_defs_same(ws: Seq<WeaponTemplate>, a: Seq<WeaponTemplate>, b: Seq<WeaponTemplate>, n: nat)
    requires
        weapon_ids_same(a, b),
    ensures
        ordered_upto(ws, a, n) == ordered_upto(ws, b, n),
    decreases n,
{
    if n > 0 {
        lemma_ordered_upto_defs_same(ws, a, b, (n - 1) as nat);
        lemma_weapons_at_same(ws, a, b, n - 1);
    }
}

proof fn lemma_synced_same_defaults(p: GameProfile, q: GameProfile, d1: Seq<GameProfile>, d2: Seq<GameProfile>)
    requires
        profile_ids_same(d1, d2),
    ensures
        profile_synced(p, q, d1) == profile_synced(p, q, d2),
        profile_sync_drops(p, d1) == profile_sync_drops(p, d2),
{
    assert forall|k: int| 0 <= k < d1.len() implies (#[trigger] d1[k]).id@ == d2[k].id@ by {}
    crate::commands::lemma_find_game_same_ids(d1, d2, p.id@);
    lemma_find_game(d1, p.id@);
    match find_game(d1, p.id@) {
        None => {},
        Some(g) => {
            assert(weapon_ids_same(d1[g].weapons@, d2[g].weapons@));
            lemma_sync_parts_same(p.weapons@, p.bindings@, d1[g].weapons@, d2[g].weapons@);
        },
    }
}

proof fn lemma_default_ids_same(d1: AppConfig, d2: AppConfig)
    requires
        is_default_config(d1),
        is_default_config(d2),
    ensures
        profile_ids_same(d1.game_profiles@, d2.game_profiles@),
{
    lemma_default_ids_same_with(d1, Seq::empty(), d2, Seq::empty());
}

proof fn lemma_default_ids_same_with(d1: AppConfig, t1: Seq<(String, String, String)>, d2: AppConfig, t2: Seq<(String, String, String)>)
    requires
        is_default_config_with(d1, t1),
        is_default_config_with(d2, t2),
    ensures
        profile_ids_same(d1.game_profiles@, d2.game_profiles@),
        t1 == t2 ==> forall|g: int, k: int| 0 <= g < d1.game_profiles@.len() && 0 <= k < d1.game_profiles@[g].weapons@.len()
            ==> opt_view(#[trigger] d1.game_profiles@[g].weapons@[k].icon_url) == opt_view(d2.game_profiles@[g].weapons@[k].icon_url),
{
    let a = d1.game_profiles@;
    let b = d2.game_profiles@;
    assert forall|g: int| 0 <= g < a.len() implies (#[trigger] a[g]).id@ == b[g].id@
        && weapon_ids_same(a[g].weapons@, b[g].weapons@) by {
        assert forall|k: int| 0 <= k < a[g].weapons@.len() implies (#[trigger] a[g].weapons@[k]).id@
            == b[g].weapons@[k].id@ by {
            if k == 0 {} else if k == 1 {} else if k == 2 {} else if k == 3 {} else if k == 4 {} else {}
        }
    }
    if t1 == t2 {
        assert forall|g: int, k: int| 0 <= g < a.len() && 0 <= k < a[g].weapons@.len() implies opt_view(
            #[trigger] a[g].weapons@[k].icon_url,
        ) == opt_view(b[g].weapons@[k].icon_url) by {
            if k == 0 {} else if k == 1 {} else if k == 2 {} else if k == 3 {} else if k == 4 {} else {}
        }
    }
}

/// Syncing with the built-in profiles twice: the second call drops nothing
/// and changes nothing, whichever built-in configuration each call used.
pub proof fn lemma_sync_to_defaults_twice(c0: AppConfig, c1: AppConfig, c2: AppConfig, d1: AppConfig, d2: AppConfig)
    requires
        is_default_config(d1),
        is_default_config(d2),
        config_synced(c0, c1, d1.game_profiles@),
        config_synced(c1, c2, d2.game_profiles@),
    ensures
        !any_sync_drop(c1.game_profiles@, d2.game_profiles@),
        crate::types::config_same(c2, c1),
{
    lemma_default_ids_same(d1, d2);
    let g1 = d1.game_profiles@;
    let g2 = d2.game_profiles@;
    assert forall|g: int| 0 <= g < c1.game_profiles@.len() implies
        profile_synced(c1.game_profiles@[g], #[trigger] c2.game_profiles@[g], g1)
            && profile_sync_drops(c1.game_profiles@[g], g2) == profile_sync_drops(c1.game_profiles@[g], g1) by {
        lemma_synced_same_defaults(c1.game_profiles@[g], c2.game_profiles@[g], g1, g2);
    }
    lemma_sync_idempotent(c0, c1, c2, g1);
    if any_sync_drop(c1.game_profiles@, g2) {
        let g = choose|g: int| 0 <= g < c1.game_profiles@.len() && profile_sync_drops(#[trigger] c1.game_profiles@[g], g2);
        assert(profile_synced(c1.game_profiles@[g], c2.game_profiles@[g], g1));
    }
}

fn keep_bindings(bs: &Vec<WeaponBinding>, def_ws: &Vec<WeaponTemplate>) -> (r: Vec<WeaponBinding>)
    ensures
        r@ == kept_bindings(bs@, def_ws@),
{
    let mut out: Vec<WeaponBinding> = Vec::new();
    let mut i: usize = 0;
    assert(bs@.take(0) == Seq::<WeaponBinding>::empty());
    while i < bs.len()
        invariant
            i <= bs@.len(),
            out@ == kept_bindings(bs@.take(i as int), def_ws@),
        decreases bs@.len() - i,
    {
        assert(bs@.take(i + 1).drop_last() == bs@.take(i as int));
        if weapon_index(def_ws, bs[i].weapon_id.as_str()).is_some() {
            out.push(bs[i].duplicate());
        }
        i = i + 1;
    }
    assert(bs@.take(bs@.len() as int) == bs@);
    out
}

fn count_kept_weapons(ws: &Vec<WeaponTemplate>, def_ws: &Vec<WeaponTemplate>) -> (r: usize)
    ensures
        r == kept_weapons(ws@, def_ws@).len(),
{
    let mut n: usize = 0;
    let mut i: usize = 0;
    assert(ws@.take(0) == Seq::<WeaponTemplate>::empty());
    while i < ws.len()
        invariant
            i <= ws@.len(),
            n <= i,
            n == kept_weapons(ws@.take(i as int), def_ws@).len(),
        decreases ws@.len() - i,
    {
        assert(ws@.take(i + 1).drop_last() == ws@.take(i as int));
        if weapon_index(def_ws, ws[i].id.as_str()).is_some() {
            n = n + 1;
        }
        i = i + 1;
    }
    assert(ws@.take(ws@.len() as int) == ws@);
    n
}

fn order_weapons(ws: &Vec<WeaponTemplate>, def_ws: &Vec<WeaponTemplate>) -> (r: Vec<WeaponTemplate>)
    ensures
        r@ == ordered_weapons(ws@, def_ws@),
{
    let mut out: Vec<WeaponTemplate> = Vec::new();
    let mut k: usize = 0;
    while k < def_ws.len()
        invariant
            k <= def_ws@.len(),
            out@ == ordered_upto(ws@, def_ws@, k as nat),
        decreases def_ws@.len() - k,
    {
        let ghost base = out@;
        let mut i: usize = 0;
        assert(ws@.take(0) == Seq::<WeaponTemplate>::empty());
        assert(base + weapons_at(ws@.take(0), def_ws@, k as int) == base);
        while i < ws.len()
            invariant
                i <= ws@.len(),
                k < def_ws@.len(),
                out@ == base + weapons_at(ws@.take(i as int), def_ws@, k as int),
            decreases ws@.len() - i,
        {
            assert(ws@.take(i + 1).drop_last() == ws@.take(i as int));
            let pos = weapon_index(def_ws, ws[i].id.as_str());
            if pos == Some(k) {
                let ghost before = out@;
                out.push(ws[i].duplicate());
                assert(out@ == before.push(ws@[i as int]));
            }
            i = i + 1;
        }
        assert(ws@.take(ws@.len() as int) == ws@);
        k = k + 1;
    }
    out
}

fn sync_profile(gp: &mut GameProfile, defaults: &Vec<GameProfile>) -> (changed: bool)
    ensures
        profile_synced(*old(gp), *final(gp), defaults@),
        changed == profile_sync_drops(*old(gp), defaults@),
{
    proof {
        lemma_find_game(defaults@, gp.id@);
    }
    let d = match game_index(defaults, gp.id.as_str()) {
        None => { return false; },
        Some(d) => d,
    };
    let def_ws = &defaults[d].weapons;
    let kept = count_kept_weapons(&gp.weapons, def_ws);
    let mut changed = kept != gp.weapons.len();
    let ordered = order_weapons(&gp.weapons, def_ws);
    gp.weapons = ordered;
    let bs = keep_bindings(&gp.bindings, def_ws);
    if bs.len() != gp.bindings.len() {
        changed = true;
    }
    gp.bindings = bs;
    changed
}

/// Drops weapons and bindings that the built-in profile of the same game does
/// not have, and orders the remaining weapons as the built-in profile does.
/// Returns whether a weapon or binding was dropped.
pub fn sync_weapons_from(cfg: &mut AppConfig, defaults: &AppConfig) -> (changed: bool)
    ensures
        config_synced(*old(cfg), *final(cfg), defaults.game_profiles@),
        changed == any_sync_drop(old(cfg).game_profiles@, defaults.game_profiles@),
{
    let ghost orig = *cfg;
    let mut changed = false;
    let mut g: usize = 0;
    while g < cfg.game_profiles.len()
        invariant
            settings_same(*cfg, orig),
            cfg.macros@ == orig.macros@,
            cfg.game_profiles@.len() == orig.game_profiles@.len(),
            g <= cfg.game_profiles@.len(),
            forall|j: int| 0 <= j < g ==> profile_synced(orig.game_profiles@[j], #[trigger] cfg.game_profiles@[j], defaults.game_profiles@),
            forall|j: int| g <= j < cfg.game_profiles@.len() ==> #[trigger] cfg.game_profiles@[j] == orig.game_profiles@[j],
            changed == exists|j: int| 0 <= j < g && profile_sync_drops(#[trigger] orig.game_profiles@[j], defaults.game_profiles@),
        decreases cfg.game_profiles@.len() - g,
    {
        let c = sync_profile(&mut cfg.game_profiles[g], &defaults.game_profiles);
        changed = changed || c;
        g = g + 1;
    }
    changed
}

/// Drops weapons and bindings that no longer exist in built-in defaults (e.g.
/// removed guns) and reorders the remaining weapons to match default profile
/// order. Returns whether anything was dropped.
pub fn sync_weapons_to_defaults(cfg: &mut AppConfig) -> (changed: bool)
    ensures
        exists|d: AppConfig| is_default_config(d) && config_synced(*old(cfg), *final(cfg), d.game_profiles@)
            && changed == any_sync_drop(old(cfg).game_profiles@, d.game_profiles@),
{
    let d = default_config();
    sync_weapons_from(cfg, &d)
}

} // verus!
