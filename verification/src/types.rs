//! The data the application stores and shows: profiles, bindings, macros.
use vstd::prelude::*;
use crate::text::string_lit;

verus! {

/// How a bound macro reacts to its hotkey.
#[derive(Clone, Copy, Debug, PartialEq, Eq, Structural, Hash)]
pub enum ExecutionMode {
    Tap,
    Hold,
    Toggle,
}

impl Default for ExecutionMode {
    fn default() -> (r: Self)
        ensures
            r == ExecutionMode::Hold,
    {
        ExecutionMode::Hold
    }
}

/// A hotkey: `MOD_*` bitmask (ALT=1, CONTROL=2, SHIFT=4) and a virtual-key code.
#[derive(Clone, Copy, Debug, PartialEq, Eq, Structural, Hash)]
pub struct HotkeySpec {
    pub modifiers: u32,
    pub vk: u32,
}

/// The binding of one weapon of a game profile to a macro and a hotkey.
#[derive(Clone, Debug, PartialEq, Eq)]
pub struct WeaponBinding {
    pub weapon_id: String,
    pub macro_id: Option<String>,
    pub hotkey: Option<HotkeySpec>,
    pub mode: ExecutionMode,
    pub enabled: bool,
}

/// A weapon shown for a game. `recoil_bits` carries the recoil factor as the
/// bit pattern of an IEEE-754 single-precision value; nothing here computes on it.
#[derive(Clone, Debug, PartialEq, Eq)]
pub struct WeaponTemplate {
    pub id: String,
    pub name: String,
    pub class: String,
    pub caliber: String,
    pub rpm: Option<u32>,
    pub recoil_bits: Option<u32>,
    /// HTTPS or relative path `assets/...`, or an embedded `data:` URL.
    pub icon_url: Option<String>,
}

/// One game: its weapons and their bindings.
#[derive(Clone, Debug, PartialEq, Eq)]
pub struct GameProfile {
    pub id: String,
    pub display_name: String,
    pub subtitle: String,
    pub profile_label: String,
    pub weapons: Vec<WeaponTemplate>,
    pub bindings: Vec<WeaponBinding>,
}

/// One step of a macro.
#[derive(Clone, Debug, PartialEq, Eq)]
pub enum MacroStep {
    MouseDown { button: String },
    MouseUp { button: String },
    /// Relative mouse movement (units of `SendInput` / `MOUSEEVENTF_MOVE`).
    MouseMoveRel { dx: i32, dy: i32 },
    KeyDown { vk: u32 },
    KeyUp { vk: u32 },
    Delay { ms: u64 },
}

/// The mathematical value of a [`MacroStep`].
pub enum StepView {
    MouseDown(Seq<char>),
    MouseUp(Seq<char>),
    MouseMoveRel(i32, i32),
    KeyDown(u32),
    KeyUp(u32),
    Delay(u64),
}

impl View for MacroStep {
    type V = StepView;

    open spec fn view(&self) -> StepView {
        match self {
            MacroStep::MouseDown { button } => StepView::MouseDown(button@),
            MacroStep::MouseUp { button } => StepView::MouseUp(button@),
            MacroStep::MouseMoveRel { dx, dy } => StepView::MouseMoveRel(*dx, *dy),
            MacroStep::KeyDown { vk } => StepView::KeyDown(*vk),
            MacroStep::KeyUp { vk } => StepView::KeyUp(*vk),
            MacroStep::Delay { ms } => StepView::Delay(*ms),
        }
    }
}

pub open spec fn step_views(s: Seq<MacroStep>) -> Seq<StepView> {
    s.map_values(|x: MacroStep| x@)
}

/// A named macro.
#[derive(Clone, Debug, PartialEq, Eq)]
pub struct MacroDefinition {
    pub id: String,
    pub name: String,
    pub version: u32,
    pub steps: Vec<MacroStep>,
}

/// The whole stored configuration.
#[derive(Clone, Debug, PartialEq, Eq)]
pub struct AppConfig {
    pub schema_version: u32,
    pub master_enabled: bool,
    pub active_game: String,
    /// VK for primary fire (default LMB `0x01`).
    pub fire_button_vk: u32,
    pub jitter_ms: Option<(u64, u64)>,
    pub macros: Vec<MacroDefinition>,
    pub game_profiles: Vec<GameProfile>,
}

/// The configuration as the UI shows it.
#[derive(Clone, Debug, PartialEq, Eq)]
pub struct UiConfig {
    pub master_enabled: bool,
    pub active_game: String,
    pub fire_button_vk: u32,
    pub fire_button_label: String,
    pub armed_weapon_id: Option<String>,
    pub jitter_ms: Option<(u64, u64)>,
    pub games: Vec<UiGame>,
    pub macros: Vec<MacroDefinition>,
}

#[derive(Clone, Debug, PartialEq, Eq)]
pub struct UiGame {
    pub id: String,
    pub code: String,
    pub name: String,
    pub sub: String,
    pub profile: String,
    pub logo_url: Option<String>,
    pub weapons: Vec<UiWeapon>,
}

#[derive(Clone, Debug, PartialEq, Eq)]
pub struct UiWeapon {
    pub id: String,
    pub name: String,
    pub class: String,
    pub caliber: String,
    pub rpm: Option<u32>,
    pub recoil_bits: Option<u32>,
    pub bound: bool,
    /// Selected weapon profile for the active game.
    pub armed: bool,
    pub hotkey: String,
    pub mode: ExecutionMode,
    pub macro_id: Option<String>,
    pub macro_preview: Option<Vec<UiMacroStep>>,
    pub icon_url: Option<String>,
}

/// One row of a macro's timeline preview.
#[derive(Clone, Debug, PartialEq, Eq)]
pub struct UiMacroStep {
    pub t: u64,
    pub kind: String,
    pub action: String,
    pub value: String,
}

pub struct UiMacroStepView {
    pub t: u64,
    pub kind: Seq<char>,
    pub action: Seq<char>,
    pub value: Seq<char>,
}

impl View for UiMacroStep {
    type V = UiMacroStepView;

    open spec fn view(&self) -> UiMacroStepView {
        UiMacroStepView { t: self.t, kind: self.kind@, action: self.action@, value: self.value@ }
    }
}

pub open spec fn ui_step_views(s: Seq<UiMacroStep>) -> Seq<UiMacroStepView> {
    s.map_values(|x: UiMacroStep| x@)
}

/// The configuration together with its UI rendering.
#[derive(Clone, Debug, PartialEq, Eq)]
pub struct LoadResponse {
    pub ui: UiConfig,
    pub config: AppConfig,
}

/// Whether a macro runs once or repeats until interrupted.
#[derive(Clone, Copy, Debug, PartialEq, Eq, Structural)]
pub enum RunMode {
    Once,
    LoopUntilCancel,
}

/// Default of `WeaponBinding::enabled` when the stored value lacks it.
pub fn default_true() -> (r: bool)
    ensures
        r,
{
    true
}

/// Default of `MacroDefinition::version`.
pub fn default_macro_version() -> (r: u32)
    ensures
        r == 1,
{
    1
}

/// Default of `AppConfig::schema_version`.
pub fn default_schema() -> (r: u32)
    ensures
        r == 1,
{
    1
}

/// Default of `AppConfig::master_enabled`.
pub fn default_master() -> (r: bool)
    ensures
        r,
{
    true
}

/// Default of `AppConfig::active_game`.
pub fn default_game() -> (r: String)
    ensures
        r@ == "pubg"@,
{
    string_lit("pubg")
}

/// Default of `AppConfig::fire_button_vk` (left mouse button).
pub fn default_fire_button_vk() -> (r: u32)
    ensures
        r == 0x01,
{
    0x01
}

pub fn copy_opt_string(s: &Option<String>) -> (r: Option<String>)
    ensures
        r == *s,
{
    match s {
        Some(x) => Some(x.clone()),
        None => None,
    }
}

impl WeaponBinding {
    pub fn duplicate(&self) -> (r: Self)
        ensures
            r == *self,
    {
        WeaponBinding {
            weapon_id: self.weapon_id.clone(),
            macro_id: copy_opt_string(&self.macro_id),
            hotkey: self.hotkey,
            mode: self.mode,
            enabled: self.enabled,
        }
    }
}

impl WeaponTemplate {
    pub fn duplicate(&self) -> (r: Self)
        ensures
            r == *self,
    {
        WeaponTemplate {
            id: self.id.clone(),
            name: self.name.clone(),
            class: self.class.clone(),
            caliber: self.caliber.clone(),
            rpm: self.rpm,
            recoil_bits: self.recoil_bits,
            icon_url: copy_opt_string(&self.icon_url),
        }
    }
}

impl MacroStep {
    pub fn duplicate(&self) -> (r: Self)
        ensures
            r == *self,
    {
        match self {
            MacroStep::MouseDown { button } => MacroStep::MouseDown { button: button.clone() },
            MacroStep::MouseUp { button } => MacroStep::MouseUp { button: button.clone() },
            MacroStep::MouseMoveRel { dx, dy } => MacroStep::MouseMoveRel { dx: *dx, dy: *dy },
            MacroStep::KeyDown { vk } => MacroStep::KeyDown { vk: *vk },
            MacroStep::KeyUp { vk } => MacroStep::KeyUp { vk: *vk },
            MacroStep::Delay { ms } => MacroStep::Delay { ms: *ms },
        }
    }
}

pub fn copy_steps(v: &Vec<MacroStep>) -> (r: Vec<MacroStep>)
    ensures
        r@ == v@,
{
    let mut out: Vec<MacroStep> = Vec::new();
    let mut i: usize = 0;
    while i < v.len()
        invariant
            i <= v@.len(),
            out@ == v@.take(i as int),
        decreases v@.len() - i,
    {
        out.push(v[i].duplicate());
        assert(v@.take(i + 1) == v@.take(i as int).push(v@[i as int]));
        i = i + 1;
    }
    assert(v@.take(v@.len() as int) == v@);
    out
}

pub fn copy_bindings(v: &Vec<WeaponBinding>) -> (r: Vec<WeaponBinding>)
    ensures
        r@ == v@,
{
    let mut out: Vec<WeaponBinding> = Vec::new();
    let mut i: usize = 0;
    while i < v.len()
        invariant
            i <= v@.len(),
            out@ == v@.take(i as int),
        decreases v@.len() - i,
    {
        out.push(v[i].duplicate());
        assert(v@.take(i + 1) == v@.take(i as int).push(v@[i as int]));
        i = i + 1;
    }
    assert(v@.take(v@.len() as int) == v@);
    out
}

pub fn copy_weapons(v: &Vec<WeaponTemplate>) -> (r: Vec<WeaponTemplate>)
    ensures
        r@ == v@,
{
    let mut out: Vec<WeaponTemplate> = Vec::new();
    let mut i: usize = 0;
    while i < v.len()
        invariant
            i <= v@.len(),
            out@ == v@.take(i as int),
        decreases v@.len() - i,
    {
        out.push(v[i].duplicate());
        assert(v@.take(i + 1) == v@.take(i as int).push(v@[i as int]));
        i = i + 1;
    }
    assert(v@.take(v@.len() as int) == v@);
    out
}

impl MacroDefinition {
    pub fn duplicate(&self) -> (r: Self)
        ensures
            r.id == self.id,
            r.name == self.name,
            r.version == self.version,
            r.steps@ == self.steps@,
    {
        MacroDefinition {
            id: self.id.clone(),
            name: self.name.clone(),
            version: self.version,
            steps: copy_steps(&self.steps),
        }
    }
}

impl GameProfile {
    pub fn duplicate(&self) -> (r: Self)
        ensures
            r.id == self.id,
            r.display_name == self.display_name,
            r.subtitle == self.subtitle,
            r.profile_label == self.profile_label,
            r.weapons@ == self.weapons@,
            r.bindings@ == self.bindings@,
    {
        GameProfile {
            id: self.id.clone(),
            display_name: self.display_name.clone(),
            subtitle: self.subtitle.clone(),
            profile_label: self.profile_label.clone(),
            weapons: copy_weapons(&self.weapons),
            bindings: copy_bindings(&self.bindings),
        }
    }
}


pub open spec fn opt_view(s: Option<String>) -> Option<Seq<char>> {
    match s {
        Some(x) => Some(x@),
        None => None,
    }
}

pub struct UiWeaponView {
    pub id: Seq<char>,
    pub name: Seq<char>,
    pub class: Seq<char>,
    pub caliber: Seq<char>,
    pub rpm: Option<u32>,
    pub recoil_bits: Option<u32>,
    pub bound: bool,
    pub armed: bool,
    pub hotkey: Seq<char>,
    pub mode: ExecutionMode,
    pub macro_id: Option<Seq<char>>,
    pub macro_preview: Option<Seq<UiMacroStepView>>,
    pub icon_url: Option<Seq<char>>,
}

impl View for UiWeapon {
    type V = UiWeaponView;

    open spec fn view(&self) -> UiWeaponView {
        UiWeaponView {
            id: self.id@,
            name: self.name@,
            class: self.class@,
            caliber: self.caliber@,
            rpm: self.rpm,
            recoil_bits: self.recoil_bits,
            bound: self.bound,
            armed: self.armed,
            hotkey: self.hotkey@,
            mode: self.mode,
            macro_id: opt_view(self.macro_id),
            macro_preview: match self.macro_preview {
                Some(p) => Some(ui_step_views(p@)),
                None => None,
            },
            icon_url: opt_view(self.icon_url),
        }
    }
}

pub struct UiGameView {
    pub id: Seq<char>,
    pub code: Seq<char>,
    pub name: Seq<char>,
    pub sub: Seq<char>,
    pub profile: Seq<char>,
    pub logo_url: Option<Seq<char>>,
    pub weapons: Seq<UiWeaponView>,
}

impl View for UiGame {
    type V = UiGameView;

    open spec fn view(&self) -> UiGameView {
        UiGameView {
            id: self.id@,
            code: self.code@,
            name: self.name@,
            sub: self.sub@,
            profile: self.profile@,
            logo_url: opt_view(self.logo_url),
            weapons: self.weapons@.map_values(|w: UiWeapon| w@),
        }
    }
}

/// Two macros with the same fields and steps.
pub open spec fn macro_same(a: MacroDefinition, b: MacroDefinition) -> bool {
    a.id == b.id && a.name == b.name && a.version == b.version && a.steps@ == b.steps@
}

pub open spec fn macros_same(a: Seq<MacroDefinition>, b: Seq<MacroDefinition>) -> bool {
    a.len() == b.len() && forall|i: int| 0 <= i < a.len() ==> macro_same(#[trigger] a[i], b[i])
}

/// Two game profiles with the same fields, weapons and bindings.
pub open spec fn profile_same(a: GameProfile, b: GameProfile) -> bool {
    a.id == b.id && a.display_name == b.display_name && a.subtitle == b.subtitle
        && a.profile_label == b.profile_label && a.weapons@ == b.weapons@ && a.bindings@ == b.bindings@
}

pub open spec fn profiles_same(a: Seq<GameProfile>, b: Seq<GameProfile>) -> bool {
    a.len() == b.len() && forall|i: int| 0 <= i < a.len() ==> profile_same(#[trigger] a[i], b[i])
}

/// The scalar settings of two configurations agree.
pub open spec fn settings_same(a: AppConfig, b: AppConfig) -> bool {
    a.schema_version == b.schema_version && a.master_enabled == b.master_enabled
        && a.active_game == b.active_game && a.fire_button_vk == b.fire_button_vk
        && a.jitter_ms == b.jitter_ms
}

/// Two configurations with the same content.
pub open spec fn config_same(a: AppConfig, b: AppConfig) -> bool {
    settings_same(a, b) && macros_same(a.macros@, b.macros@) && profiles_same(a.game_profiles@, b.game_profiles@)
}

pub fn copy_macros(v: &Vec<MacroDefinition>) -> (r: Vec<MacroDefinition>)
    ensures
        macros_same(r@, v@),
{
    let mut out: Vec<MacroDefinition> = Vec::new();
    let mut i: usize = 0;
    while i < v.len()
        invariant
            i <= v@.len(),
            macros_same(out@, v@.take(i as int)),
        decreases v@.len() - i,
    {
        out.push(v[i].duplicate());
        i = i + 1;
    }
    assert(v@.take(v@.len() as int) == v@);
    out
}

pub fn copy_profiles(v: &Vec<GameProfile>) -> (r: Vec<GameProfile>)
    ensures
        profiles_same(r@, v@),
{
    let mut out: Vec<GameProfile> = Vec::new();
    let mut i: usize = 0;
    while i < v.len()
        invariant
            i <= v@.len(),
            profiles_same(out@, v@.take(i as int)),
        decreases v@.len() - i,
    {
        out.push(v[i].duplicate());
        i = i + 1;
    }
    assert(v@.take(v@.len() as int) == v@);
    out
}

impl AppConfig {
    pub fn duplicate(&self) -> (r: Self)
        ensures
            config_same(r, *self),
    {
        AppConfig {
            schema_version: self.schema_version,
            master_enabled: self.master_enabled,
            active_game: self.active_game.clone(),
            fire_button_vk: self.fire_button_vk,
            jitter_ms: self.jitter_ms,
            macros: copy_macros(&self.macros),
            game_profiles: copy_profiles(&self.game_profiles),
        }
    }
}

} // verus!
