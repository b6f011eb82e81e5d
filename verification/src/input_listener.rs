//! The decisions of the global input hooks: which events count, which
//! binding an event triggers, and what the macro engine is asked to do.
use vstd::prelude::*;
use crate::text::str_eq;
use crate::types::{AppConfig, ExecutionMode, MacroStep, WeaponBinding, copy_steps, opt_view};
use crate::commands::{find_game, find_binding, find_macro, lemma_find_game, lemma_find_binding};

verus! {

/// The steps of the macro with identifier `macro_id`, if there is one.
pub open spec fn resolved_steps(cfg: AppConfig, macro_id: Option<String>) -> Option<Seq<MacroStep>> {
    match macro_id {
        None => None,
        Some(id) => match find_macro(cfg.macros@, id@) {
            None => None,
            Some(k) => Some(cfg.macros@[k].steps@),
        },
    }
}

/// The steps of the macro a binding names.
pub fn resolve_macro(cfg: &AppConfig, macro_id: &Option<String>) -> (r: Option<Vec<MacroStep>>)
    ensures
        match resolved_steps(*cfg, *macro_id) {
            None => r is None,
            Some(s) => r matches Some(v) && v@ == s,
        },
{
    match macro_id {
        None => None,
        Some(id) => {
            proof {
                crate::commands::lemma_find_macro_bounds(cfg.macros@, id@);
            }
            match crate::commands::macro_index(&cfg.macros, id.as_str()) {
                None => None,
                Some(k) => Some(copy_steps(&cfg.macros[k].steps)),
            }
        },
    }
}

/// The keys held down, as (vk, modifier mask) pairs, each once.
pub struct PressedKeys {
    keys: Vec<(u32, u32)>,
}

impl View for PressedKeys {
    type V = Set<(u32, u32)>;

    closed spec fn view(&self) -> Set<(u32, u32)> {
        self.keys@.to_set()
    }
}

impl PressedKeys {
    #[verifier::type_invariant]
    spec fn keys_unique(&self) -> bool {
        self.keys@.no_duplicates()
    }

    pub fn new() -> (r: Self)
        ensures
            r@ == Set::<(u32, u32)>::empty(),
    {
        let r = PressedKeys { keys: Vec::new() };
        assert(r.keys@.to_set() =~= Set::<(u32, u32)>::empty());
        r
    }

    fn index_of(&self, key: (u32, u32)) -> (r: Option<usize>)
        ensures
            r matches Some(i) ==> i < self.keys@.len() && self.keys@[i as int] == key,
            r is None ==> !self@.contains(key),
    {
        let mut i: usize = 0;
        while i < self.keys.len()
            invariant
                i <= self.keys@.len(),
                forall|j: int| 0 <= j < i ==> self.keys@[j] != key,
            decreases self.keys@.len() - i,
        {
            if self.keys[i].0 == key.0 && self.keys[i].1 == key.1 {
                return Some(i);
            }
            i = i + 1;
        }
        proof {
            if self.keys@.to_set().contains(key) {
                assert(self.keys@.contains(key));
            }
        }
        None
    }

    /// Whether `key` is held.
    pub fn contains(&self, key: (u32, u32)) -> (r: bool)
        ensures
            r == self@.contains(key),
    {
        match self.index_of(key) {
            Some(i) => {
                assert(self.keys@.contains(key));
                true
            },
            None => false,
        }
    }

    /// Records `key` as held.
    pub fn insert(&mut self, key: (u32, u32))
        ensures
            final(self)@ == old(self)@.insert(key),
    {
        proof {
            use_type_invariant(&*self);
        }
        if self.index_of(key).is_none() {
            let ghost before = self.keys@;
            let mut keys: Vec<(u32, u32)> = Vec::new();
            std::mem::swap(&mut keys, &mut self.keys);
            keys.push(key);
            assert(keys@.no_duplicates()) by {
                assert forall|a: int, b: int| 0 <= a < b < keys@.len() implies keys@[a] != keys@[b] by {
                    if b == before.len() {
                        assert(before.contains(keys@[a]));
                    } else {
                        assert(keys@[a] == before[a] && keys@[b] == before[b]);
                    }
                }
            }
            assert(keys@.to_set() =~= before.to_set().insert(key)) by {
                assert forall|x: (u32, u32)| keys@.contains(x) <==> (before.contains(x) || x == key) by {
                    if x == key {
                        assert(keys@[before.len() as int] == key);
                    }
                    if before.contains(x) {
                        let j = choose|j: int| 0 <= j < before.len() && before[j] == x;
                        assert(keys@[j] == x);
                    }
                    if keys@.contains(x) {
                        let j = choose|j: int| 0 <= j < keys@.len() && keys@[j] == x;
                        if j < before.len() {
                            assert(before[j] == x);
                        }
                    }
                }
            }
            self.keys = keys;
        } else {
            assert(self@.contains(key));
            assert(self@.insert(key) =~= self@);
        }
    }

    /// Records `key` as released.
    pub fn remove(&mut self, key: (u32, u32))
        ensures
            final(self)@ == old(self)@.remove(key),
    {
        proof {
            use_type_invariant(&*self);
        }
        match self.index_of(key) {
            None => {
                assert(self@.remove(key) =~= self@);
            },
            Some(i) => {
                let ghost before = self.keys@;
                let mut keys: Vec<(u32, u32)> = Vec::new();
                std::mem::swap(&mut keys, &mut self.keys);
                keys.remove(i);
                assert(keys@ == before.remove(i as int));
                assert(keys@.to_set() =~= before.to_set().remove(key)) by {
                    assert forall|x: (u32, u32)| keys@.contains(x) <==> (before.contains(x) && x != key) by {
                        if keys@.contains(x) {
                            let j = choose|j: int| 0 <= j < keys@.len() && keys@[j] == x;
                            if j < i {
                                assert(before[j] == x);
                                assert(j != i);
                            } else {
                                assert(before[j + 1] == x);
                                assert(j + 1 != i);
                            }
                        }
                        if before.contains(x) && x != key {
                            let j = choose|j: int| 0 <= j < before.len() && before[j] == x;
                            assert(j != i);
                            if j < i {
                                assert(keys@[j] == x);
                            } else {
                                assert(keys@[j - 1] == x);
                            }
                        }
                    }
                }
                assert(keys@.no_duplicates()) by {
                    assert forall|a: int, b: int| 0 <= a < b < keys@.len() implies keys@[a] != keys@[b] by {
                        let a2 = if a < i { a } else { a + 1 };
                        let b2 = if b < i { b } else { b + 1 };
                        assert(keys@[a] == before[a2]);
                        assert(keys@[b] == before[b2]);
                    }
                }
                self.keys = keys;
            },
        }
    }
}

/// The action requested of the macro engine.
#[derive(Clone, Debug, PartialEq, Eq)]
pub enum DispatchAction {
    /// Nothing to do.
    Nothing,
    /// Play the steps once.
    RunOnce { steps: Vec<MacroStep>, jitter_ms: Option<(u64, u64)> },
    /// Play the steps repeatedly until interrupted.
    RunLoop { steps: Vec<MacroStep>, jitter_ms: Option<(u64, u64)> },
    /// Stop the running macro.
    Interrupt,
}

pub enum ActionView {
    Nothing,
    RunOnce(Seq<MacroStep>, Option<(u64, u64)>),
    RunLoop(Seq<MacroStep>, Option<(u64, u64)>),
    Interrupt,
}

impl View for DispatchAction {
    type V = ActionView;

    open spec fn view(&self) -> ActionView {
        match self {
            DispatchAction::Nothing => ActionView::Nothing,
            DispatchAction::RunOnce { steps, jitter_ms } => ActionView::RunOnce(steps@, *jitter_ms),
            DispatchAction::RunLoop { steps, jitter_ms } => ActionView::RunLoop(steps@, *jitter_ms),
            DispatchAction::Interrupt => ActionView::Interrupt,
        }
    }
}

/// Whether a binding reacts to key `vk` with modifiers `mods`: it is enabled,
/// its hotkey is exactly that, and its macro exists.
pub open spec fn binding_fires(cfg: AppConfig, b: WeaponBinding, vk: u32, mods: u32) -> bool {
    &&& b.enabled
    &&& b.hotkey matches Some(h) && h.vk == vk && h.modifiers == mods
    &&& resolved_steps(cfg, b.macro_id) is Some
}

/// Index of the first binding that reacts.
pub open spec fn first_firing(cfg: AppConfig, bs: Seq<WeaponBinding>, vk: u32, mods: u32) -> Option<int>
    decreases bs.len(),
{
    if bs.len() == 0 {
        None
    } else {
        match first_firing(cfg, bs.drop_last(), vk, mods) {
            Some(i) => Some(i),
            None => if binding_fires(cfg, bs.last(), vk, mods) {
                Some(bs.len() - 1)
            } else {
                None
            },
        }
    }
}

/// What a binding's mode makes of a press or release: Tap plays once on
/// press; Toggle starts looping on press, or interrupts when a macro runs;
/// Hold loops while held and interrupts on release.
pub open spec fn mode_action(mode: ExecutionMode, down: bool, up: bool, running: bool, steps: Seq<MacroStep>, jitter: Option<(u64, u64)>) -> ActionView {
    match mode {
        ExecutionMode::Tap => if down { ActionView::RunOnce(steps, jitter) } else { ActionView::Nothing },
        ExecutionMode::Toggle => if down {
            if running { ActionView::Interrupt } else { ActionView::RunLoop(steps, jitter) }
        } else {
            ActionView::Nothing
        },
        ExecutionMode::Hold => if down {
            ActionView::RunLoop(steps, jitter)
        } else if up {
            ActionView::Interrupt
        } else {
            ActionView::Nothing
        },
    }
}

/// The weapon of the active game that a press of key `vk` with modifiers
/// `mods` arms: that of the first reacting binding, while macros are enabled.
pub open spec fn arm_target(cfg: AppConfig, vk: u32, mods: u32) -> Option<Seq<char>> {
    if !cfg.master_enabled {
        None
    } else {
        match find_game(cfg.game_profiles@, cfg.active_game@) {
            None => None,
            Some(g) => match first_firing(cfg, cfg.game_profiles@[g].bindings@, vk, mods) {
                None => None,
                Some(i) => Some(cfg.game_profiles@[g].bindings@[i].weapon_id@),
            },
        }
    }
}

/// The armed weapon after an event on a key other than the fire button: a
/// press of a weapon's hotkey arms that weapon; anything else keeps the one
/// that is armed.
pub open spec fn armed_after(cfg: AppConfig, armed: Option<Seq<char>>, vk: u32, mods: u32, down: bool) -> Option<Seq<char>> {
    if down {
        match arm_target(cfg, vk, mods) {
            Some(w) => Some(w),
            None => armed,
        }
    } else {
        armed
    }
}

/// The action for an event on the fire button: while macros are enabled, the
/// binding of the armed weapon in the active game acts in its mode, when it
/// is enabled and its macro exists.
pub open spec fn fire_decision(cfg: AppConfig, armed: Option<Seq<char>>, down: bool, up: bool, running: bool) -> ActionView {
    if !cfg.master_enabled {
        ActionView::Nothing
    } else {
        match armed {
            None => ActionView::Nothing,
            Some(w) => match find_game(cfg.game_profiles@, cfg.active_game@) {
                None => ActionView::Nothing,
                Some(g) => match find_binding(cfg.game_profiles@[g].bindings@, w) {
                    None => ActionView::Nothing,
                    Some(i) => {
                        let b = cfg.game_profiles@[g].bindings@[i];
                        if b.enabled && resolved_steps(cfg, b.macro_id) is Some {
                            mode_action(b.mode, down, up, running, resolved_steps(cfg, b.macro_id).unwrap(), cfg.jitter_ms)
                        } else {
                            ActionView::Nothing
                        }
                    },
                },
            },
        }
    }
}

proof fn lemma_first_firing_prefix(cfg: AppConfig, bs: Seq<WeaponBinding>, i: int, vk: u32, mods: u32)
    requires
        0 <= i <= bs.len(),
        first_firing(cfg, bs.take(i), vk, mods) is Some,
    ensures
        first_firing(cfg, bs, vk, mods) == first_firing(cfg, bs.take(i), vk, mods),
    decreases bs.len() - i,
{
    if i < bs.len() {
        assert(bs.take(i + 1).drop_last() == bs.take(i));
        lemma_first_firing_prefix(cfg, bs, i + 1, vk, mods);
    } else {
        assert(bs.take(i) == bs);
    }
}

fn action_for(mode: ExecutionMode, down: bool, up: bool, running: bool, steps: Vec<MacroStep>, jitter_ms: Option<(u64, u64)>) -> (r: DispatchAction)
    ensures
        r@ == mode_action(mode, down, up, running, steps@, jitter_ms),
{
    match mode {
        ExecutionMode::Tap => if down { DispatchAction::RunOnce { steps, jitter_ms } } else { DispatchAction::Nothing },
        ExecutionMode::Toggle => if down {
            if running { DispatchAction::Interrupt } else { DispatchAction::RunLoop { steps, jitter_ms } }
        } else {
            DispatchAction::Nothing
        },
        ExecutionMode::Hold => if down {
            DispatchAction::RunLoop { steps, jitter_ms }
        } else if up {
            DispatchAction::Interrupt
        } else {
            DispatchAction::Nothing
        },
    }
}

/// The fire button runs a macro only through an enabled binding: whenever a
/// fire-button event plays steps, macros are enabled, a weapon is armed, the
/// active game has a binding for it, the first such binding is enabled, and
/// the steps are those of the macro it names, with the configuration's
/// jitter; a disabled binding runs nothing, whatever its mode and macro.
pub proof fn lemma_fire_needs_enabled(cfg: AppConfig, armed: Option<Seq<char>>, down: bool, up: bool, running: bool)
    ensures
        (fire_decision(cfg, armed, down, up, running) is RunOnce || fire_decision(cfg, armed, down, up, running) is RunLoop)
            ==> cfg.master_enabled && armed is Some && find_game(cfg.game_profiles@, cfg.active_game@) is Some
            && find_binding(
                cfg.game_profiles@[find_game(cfg.game_profiles@, cfg.active_game@)->0].bindings@,
                armed->0,
            ) is Some && ({
                let b = cfg.game_profiles@[find_game(cfg.game_profiles@, cfg.active_game@)->0].bindings@[find_binding(
                    cfg.game_profiles@[find_game(cfg.game_profiles@, cfg.active_game@)->0].bindings@,
                    armed->0,
                )->0];
                &&& b.enabled
                &&& resolved_steps(cfg, b.macro_id) is Some
                &&& match fire_decision(cfg, armed, down, up, running) {
                    ActionView::RunOnce(st, j) => st == resolved_steps(cfg, b.macro_id)->0 && j == cfg.jitter_ms
                        && b.mode == ExecutionMode::Tap && down,
                    ActionView::RunLoop(st, j) => st == resolved_steps(cfg, b.macro_id)->0 && j == cfg.jitter_ms
                        && b.mode != ExecutionMode::Tap && down,
                    _ => true,
                }
            }),
        armed matches Some(w) ==> (find_game(cfg.game_profiles@, cfg.active_game@) matches Some(g)
            ==> (find_binding(cfg.game_profiles@[g].bindings@, w) matches Some(i)
            ==> (!cfg.game_profiles@[g].bindings@[i].enabled
            ==> fire_decision(cfg, armed, down, up, running) == ActionView::Nothing))),
{
}

/// The weapon that a press of key `vk` with modifiers `mods` arms.
pub fn weapon_armed_by(cfg: &AppConfig, vk: u32, mods: u32) -> (r: Option<String>)
    ensures
        opt_view(r) == arm_target(*cfg, vk, mods),
{
    if !cfg.master_enabled {
        return None;
    }
    proof {
        lemma_find_game(cfg.game_profiles@, cfg.active_game@);
    }
    let g = match crate::commands::game_index(&cfg.game_profiles, cfg.active_game.as_str()) {
        None => { return None; },
        Some(g) => g,
    };
    let bs = &cfg.game_profiles[g].bindings;
    let mut i: usize = 0;
    assert(bs@.take(0) == Seq::<WeaponBinding>::empty());
    while i < bs.len()
        invariant
            i <= bs@.len(),
            cfg.master_enabled,
            g < cfg.game_profiles@.len(),
            find_game(cfg.game_profiles@, cfg.active_game@) == Some(g as int),
            bs@ == cfg.game_profiles@[g as int].bindings@,
            first_firing(*cfg, bs@.take(i as int), vk, mods) is None,
        decreases bs@.len() - i,
    {
        assert(bs@.take(i + 1).drop_last() == bs@.take(i as int));
        assert(bs@.take(i + 1).last() == bs@[i as int]);
        let b = &bs[i];
        if b.enabled {
            if let Some(hk) = b.hotkey {
                if hk.vk == vk && hk.modifiers == mods {
                    if resolve_macro(cfg, &b.macro_id).is_some() {
                        assert(binding_fires(*cfg, bs@[i as int], vk, mods));
                        assert(first_firing(*cfg, bs@.take(i + 1), vk, mods) == Some(i as int));
                        proof {
                            lemma_first_firing_prefix(*cfg, bs@, i + 1, vk, mods);
                        }
                        return Some(b.weapon_id.clone());
                    }
                }
            }
        }
        i = i + 1;
    }
    assert(bs@.take(bs@.len() as int) == bs@);
    None
}

/// The action for an event on the fire button with weapon `armed` armed.
pub fn fire_action(cfg: &AppConfig, armed: &Option<String>, down: bool, up: bool, running: bool) -> (r: DispatchAction)
    ensures
        r@ == fire_decision(*cfg, opt_view(*armed), down, up, running),
{
    if !cfg.master_enabled {
        return DispatchAction::Nothing;
    }
    let w = match armed {
        None => { return DispatchAction::Nothing; },
        Some(w) => w,
    };
    proof {
        lemma_find_game(cfg.game_profiles@, cfg.active_game@);
    }
    let g = match crate::commands::game_index(&cfg.game_profiles, cfg.active_game.as_str()) {
        None => { return DispatchAction::Nothing; },
        Some(g) => g,
    };
    let bs = &cfg.game_profiles[g].bindings;
    let i = match crate::commands::binding_index(bs, w.as_str()) {
        None => { return DispatchAction::Nothing; },
        Some(i) => i,
    };
    proof {
        lemma_find_binding(bs@, w@);
    }
    let b = &bs[i];
    if !b.enabled {
        return DispatchAction::Nothing;
    }
    match resolve_macro(cfg, &b.macro_id) {
        None => DispatchAction::Nothing,
        Some(steps) => action_for(b.mode, down, up, running, steps, cfg.jitter_ms),
    }
}

/// The held keys after an event: a press adds the key, a release removes it.
pub open spec fn pressed_after(p: Set<(u32, u32)>, key: (u32, u32), down: bool, up: bool) -> Set<(u32, u32)> {
    if down {
        p.insert(key)
    } else if up {
        p.remove(key)
    } else {
        p
    }
}

/// A press marks its key held; a second press while it is held finds it
/// held (and does nothing); the release frees it, leaving the other held keys
/// as they were.
pub proof fn lemma_press_release(p: Set<(u32, u32)>, key: (u32, u32))
    ensures
        pressed_after(p, key, true, false).contains(key),
        pressed_after(pressed_after(p, key, true, false), key, true, false) == pressed_after(p, key, true, false),
        !pressed_after(pressed_after(p, key, true, false), key, false, true).contains(key),
        pressed_after(pressed_after(p, key, true, false), key, false, true) == p.remove(key),
{
    assert(p.insert(key).insert(key) =~= p.insert(key));
    assert(p.insert(key).remove(key) =~= p.remove(key));
}

/// Handles a key or button event. Macros run on the fire button only: its
/// events act on the armed weapon's macro, while a press of another key that
/// is a weapon's hotkey arms that weapon. `press_mods` are the modifiers read
/// when the event arrived (they identify the held key), `match_mods` those
/// read when matching hotkeys; `running` tells whether a macro plays. A
/// repeated press of a key already held does nothing.
pub fn dispatch(
    pressed: &mut PressedKeys,
    armed: &mut Option<String>,
    cfg: &AppConfig,
    vk: u32,
    press_mods: u32,
    match_mods: u32,
    down: bool,
    up: bool,
    running: bool,
) -> (r: DispatchAction)
    ensures
        vk != cfg.fire_button_vk ==> r@ == ActionView::Nothing,
        down && old(pressed)@.contains((vk, press_mods)) ==> r@ == ActionView::Nothing
            && final(pressed)@ == old(pressed)@ && *final(armed) == *old(armed),
        !(down && old(pressed)@.contains((vk, press_mods))) ==> final(pressed)@ == pressed_after(
            old(pressed)@,
            (vk, press_mods),
            down,
            up,
        ),
        !(down && old(pressed)@.contains((vk, press_mods))) && vk == cfg.fire_button_vk ==> r@ == fire_decision(
            *cfg,
            opt_view(*old(armed)),
            down,
            up,
            running,
        ) && *final(armed) == *old(armed),
        !(down && old(pressed)@.contains((vk, press_mods))) && vk != cfg.fire_button_vk ==> opt_view(*final(armed))
            == armed_after(*cfg, opt_view(*old(armed)), vk, match_mods, down),
{
    let key = (vk, press_mods);
    if down {
        if pressed.contains(key) {
            return DispatchAction::Nothing;
        }
        pressed.insert(key);
    } else if up {
        pressed.remove(key);
    }
    if vk == cfg.fire_button_vk {
        fire_action(cfg, armed, down, up, running)
    } else {
        if down {
            if let Some(w) = weapon_armed_by(cfg, vk, match_mods) {
                *armed = Some(w);
            }
        }
        DispatchAction::Nothing
    }
}

/// Reads a keyboard-hook message: `WM_KEYDOWN`/`WM_SYSKEYDOWN` are presses,
/// `WM_KEYUP`/`WM_SYSKEYUP` releases; the result is (down, up).
pub fn keyboard_event(wparam: u32) -> (r: Option<(bool, bool)>)
    ensures
        r == (if wparam == 0x0100 || wparam == 0x0104 {
            Some((true, false))
        } else if wparam == 0x0101 || wparam == 0x0105 {
            Some((false, true))
        } else {
            None
        }),
{
    let down = wparam == 0x0100 || wparam == 0x0104;
    let up = wparam == 0x0101 || wparam == 0x0105;
    if down || up {
        Some((down, up))
    } else {
        None
    }
}

/// The virtual key of a mouse button transition (the X button number is in
/// the high word of `mouseData`), and whether it is a press or a release.
pub open spec fn mouse_event_of(wparam: u32, mouse_data: u32) -> Option<(u32, bool, bool)> {
    if wparam == 0x0201 {
        Some((0x01u32, true, false))
    } else if wparam == 0x0202 {
        Some((0x01u32, false, true))
    } else if wparam == 0x0204 {
        Some((0x02u32, true, false))
    } else if wparam == 0x0205 {
        Some((0x02u32, false, true))
    } else if wparam == 0x0207 {
        Some((0x04u32, true, false))
    } else if wparam == 0x0208 {
        Some((0x04u32, false, true))
    } else if wparam == 0x020B || wparam == 0x020C {
        let btn = mouse_data / 0x10000;
        if btn == 1 {
            Some((0x05u32, wparam == 0x020B, wparam == 0x020C))
        } else if btn == 2 {
            Some((0x06u32, wparam == 0x020B, wparam == 0x020C))
        } else {
            None
        }
    } else {
        None
    }
}

/// Reads a mouse-hook message into (vk, down, up).
pub fn mouse_event(wparam: u32, mouse_data: u32) -> (r: Option<(u32, bool, bool)>)
    ensures
        r == mouse_event_of(wparam, mouse_data),
{
    if wparam == 0x0201 {
        Some((0x01, true, false))
    } else if wparam == 0x0202 {
        Some((0x01, false, true))
    } else if wparam == 0x0204 {
        Some((0x02, true, false))
    } else if wparam == 0x0205 {
        Some((0x02, false, true))
    } else if wparam == 0x0207 {
        Some((0x04, true, false))
    } else if wparam == 0x0208 {
        Some((0x04, false, true))
    } else if wparam == 0x020B || wparam == 0x020C {
        let btn = (mouse_data >> 16) & 0xFFFF;
        assert((mouse_data >> 16) & 0xFFFF == mouse_data / 0x10000) by (bit_vector);
        let vk: u32 = if btn == 1 {
            0x05
        } else if btn == 2 {
            0x06
        } else {
            0
        };
        if vk != 0 {
            Some((vk, wparam == 0x020B, wparam == 0x020C))
        } else {
            None
        }
    } else {
        None
    }
}

} // verus!
