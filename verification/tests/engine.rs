use macro_manager::executor::{execute_step, ExecError, InputAction, MouseButtonEvent};
use macro_manager::input_listener::{
    dispatch, fire_action, keyboard_event, mouse_event, resolve_macro, weapon_armed_by, DispatchAction,
    PressedKeys,
};
use macro_manager::macro_engine::{add_jitter, after_step, jittered_delay, next_decision, sleep_slice, RunDecision};
use macro_manager::profile_manager::default_config;
use macro_manager::types::{ExecutionMode, HotkeySpec, MacroStep, RunMode};

fn sample_steps() -> Vec<MacroStep> {
    vec![
        MacroStep::MouseDown { button: "left".to_string() },
        MacroStep::Delay { ms: 32 },
        MacroStep::MouseUp { button: "left".to_string() },
    ]
}

#[test]
fn held_keys() {
    let mut p = PressedKeys::new();
    assert!(!p.contains((5, 0)));
    p.insert((5, 0));
    p.insert((5, 0));
    p.insert((6, 2));
    assert!(p.contains((5, 0)));
    assert!(p.contains((6, 2)));
    assert!(!p.contains((5, 2)));
    p.remove((5, 0));
    assert!(!p.contains((5, 0)));
    assert!(p.contains((6, 2)));
    p.remove((7, 7));
    assert!(p.contains((6, 2)));
}

fn armed(w: &str) -> Option<String> {
    Some(w.to_string())
}

#[test]
fn hold_mode_runs_while_the_fire_button_is_held() {
    let cfg = default_config();
    let mut p = PressedKeys::new();
    let mut a: Option<String> = None;
    // the fire button does nothing while no weapon is armed
    assert_eq!(dispatch(&mut p, &mut a, &cfg, 0x01, 0, 0, true, false, false), DispatchAction::Nothing);
    assert_eq!(dispatch(&mut p, &mut a, &cfg, 0x01, 0, 0, false, true, false), DispatchAction::Nothing);
    // MOUSE 4 is m416's hotkey: it arms m416 and runs nothing
    assert_eq!(dispatch(&mut p, &mut a, &cfg, 0x05, 0, 0, true, false, false), DispatchAction::Nothing);
    assert_eq!(a, armed("m416"));
    assert_eq!(dispatch(&mut p, &mut a, &cfg, 0x05, 0, 0, false, true, false), DispatchAction::Nothing);
    let press = dispatch(&mut p, &mut a, &cfg, 0x01, 0, 0, true, false, false);
    assert_eq!(press, DispatchAction::RunLoop { steps: sample_steps(), jitter_ms: Some((0, 3)) });
    assert!(p.contains((0x01, 0)));
    // a repeated press of the held button does nothing
    assert_eq!(dispatch(&mut p, &mut a, &cfg, 0x01, 0, 0, true, false, true), DispatchAction::Nothing);
    assert_eq!(dispatch(&mut p, &mut a, &cfg, 0x01, 0, 0, false, true, true), DispatchAction::Interrupt);
    assert!(!p.contains((0x01, 0)));
    assert_eq!(
        dispatch(&mut p, &mut a, &cfg, 0x01, 4, 4, true, false, false),
        DispatchAction::RunLoop { steps: sample_steps(), jitter_ms: Some((0, 3)) }
    );
    assert_eq!(a, armed("m416"));
}

#[test]
fn other_keys_only_arm() {
    let cfg = default_config();
    let mut p = PressedKeys::new();
    let mut a = armed("m416");
    // F is scarl's hotkey
    assert_eq!(dispatch(&mut p, &mut a, &cfg, 0x46, 0, 0, true, false, true), DispatchAction::Nothing);
    assert_eq!(a, armed("scarl"));
    // an unbound key keeps the armed weapon
    assert_eq!(dispatch(&mut p, &mut a, &cfg, 0x47, 0, 0, true, false, true), DispatchAction::Nothing);
    assert_eq!(a, armed("scarl"));
    // wrong modifiers do not match
    assert_eq!(dispatch(&mut p, &mut a, &cfg, 0x06, 2, 2, true, false, true), DispatchAction::Nothing);
    assert_eq!(a, armed("scarl"));
}

#[test]
fn toggle_and_tap_modes() {
    let mut cfg = default_config();
    // scarl: Toggle
    assert_eq!(
        fire_action(&cfg, &armed("scarl"), true, false, false),
        DispatchAction::RunLoop { steps: sample_steps(), jitter_ms: Some((0, 3)) }
    );
    assert_eq!(fire_action(&cfg, &armed("scarl"), true, false, true), DispatchAction::Interrupt);
    assert_eq!(fire_action(&cfg, &armed("scarl"), false, true, true), DispatchAction::Nothing);
    cfg.game_profiles[0].bindings[0].mode = ExecutionMode::Tap;
    assert_eq!(
        fire_action(&cfg, &armed("m416"), true, false, true),
        DispatchAction::RunOnce { steps: sample_steps(), jitter_ms: Some((0, 3)) }
    );
    assert_eq!(fire_action(&cfg, &armed("m416"), false, true, true), DispatchAction::Nothing);
}

#[test]
fn events_that_trigger_nothing() {
    let mut cfg = default_config();
    assert_eq!(weapon_armed_by(&cfg, 0x05, 2), None);
    assert_eq!(weapon_armed_by(&cfg, 0x47, 0), None);
    // bindings of another game
    assert_eq!(weapon_armed_by(&cfg, 0x51, 0), None);
    assert_eq!(weapon_armed_by(&cfg, 0x05, 0), armed("m416"));
    // a disabled binding
    assert_eq!(fire_action(&cfg, &armed("beryl"), true, false, false), DispatchAction::Nothing);
    // a weapon of another game
    assert_eq!(fire_action(&cfg, &armed("ak47"), true, false, false), DispatchAction::Nothing);
    assert_eq!(fire_action(&cfg, &None, true, false, false), DispatchAction::Nothing);
    // master switch off
    cfg.master_enabled = false;
    assert_eq!(weapon_armed_by(&cfg, 0x05, 0), None);
    assert_eq!(fire_action(&cfg, &armed("m416"), true, false, false), DispatchAction::Nothing);
    cfg.master_enabled = true;
    // missing macro
    cfg.macros.clear();
    assert_eq!(weapon_armed_by(&cfg, 0x05, 0), None);
    assert_eq!(fire_action(&cfg, &armed("m416"), true, false, false), DispatchAction::Nothing);
    // unknown active game
    let mut cfg = default_config();
    cfg.active_game = "none".to_string();
    assert_eq!(weapon_armed_by(&cfg, 0x05, 0), None);
    assert_eq!(fire_action(&cfg, &armed("m416"), true, false, false), DispatchAction::Nothing);
}

#[test]
fn first_reacting_binding_is_armed() {
    let mut cfg = default_config();
    cfg.active_game = "rust".to_string();
    let b = &mut cfg.game_profiles[1].bindings[2];
    b.enabled = true;
    b.hotkey = Some(HotkeySpec { modifiers: 0, vk: 0x05 });
    b.macro_id = Some("sample-recoil".to_string());
    // ak47 comes first
    assert_eq!(weapon_armed_by(&cfg, 0x05, 0), armed("ak47"));
}

#[test]
fn macro_lookup() {
    let cfg = default_config();
    assert_eq!(resolve_macro(&cfg, &Some("sample-recoil".to_string())), Some(sample_steps()));
    assert_eq!(resolve_macro(&cfg, &Some("missing".to_string())), None);
    assert_eq!(resolve_macro(&cfg, &None), None);
}

#[test]
fn hook_messages() {
    assert_eq!(keyboard_event(0x0100), Some((true, false)));
    assert_eq!(keyboard_event(0x0104), Some((true, false)));
    assert_eq!(keyboard_event(0x0101), Some((false, true)));
    assert_eq!(keyboard_event(0x0105), Some((false, true)));
    assert_eq!(keyboard_event(0x0102), None);
    assert_eq!(mouse_event(0x0201, 0), Some((0x01, true, false)));
    assert_eq!(mouse_event(0x0202, 0), Some((0x01, false, true)));
    assert_eq!(mouse_event(0x0204, 0), Some((0x02, true, false)));
    assert_eq!(mouse_event(0x0205, 0), Some((0x02, false, true)));
    assert_eq!(mouse_event(0x0207, 0), Some((0x04, true, false)));
    assert_eq!(mouse_event(0x0208, 0), Some((0x04, false, true)));
    assert_eq!(mouse_event(0x020B, 0x0001_0000), Some((0x05, true, false)));
    assert_eq!(mouse_event(0x020C, 0x0002_0000), Some((0x06, false, true)));
    assert_eq!(mouse_event(0x020B, 0x0003_0000), None);
    assert_eq!(mouse_event(0x020B, 0x0000_0001), None);
    assert_eq!(mouse_event(0x0200, 0), None);
}

#[test]
fn playback_decisions() {
    assert_eq!(next_decision(RunMode::Once, 3, 0, false), RunDecision::Step(0));
    assert_eq!(next_decision(RunMode::Once, 3, 3, false), RunDecision::Finish);
    assert_eq!(next_decision(RunMode::LoopUntilCancel, 3, 3, false), RunDecision::Restart);
    assert_eq!(next_decision(RunMode::LoopUntilCancel, 3, 1, true), RunDecision::Finish);
    assert_eq!(after_step(3, 1, false), 2);
    assert_eq!(after_step(3, 1, true), 3);
}

#[test]
fn delays_and_sleep_slices() {
    assert_eq!(jittered_delay(32, None), 32);
    assert_eq!(jittered_delay(32, Some((4, 4))), 36);
    assert_eq!(jittered_delay(32, Some((5, 1))), 37);
    assert_eq!(jittered_delay(u64::MAX, Some((1, 1))), u64::MAX);
    for _ in 0..50 {
        let d = jittered_delay(100, Some((0, 3)));
        assert!((100..=103).contains(&d));
    }
    assert_eq!(sleep_slice(0, false), None);
    assert_eq!(sleep_slice(25, true), None);
    assert_eq!(sleep_slice(25, false), Some(10));
    assert_eq!(sleep_slice(7, false), Some(7));
    let mut left: u64 = 37;
    let mut total: u64 = 0;
    while let Some(s) = sleep_slice(left, false) {
        total += s;
        left -= s;
    }
    assert_eq!(total, 37);
}

#[test]
fn inputs_of_steps() {
    assert_eq!(
        execute_step(&MacroStep::MouseDown { button: "LEFT".to_string() }),
        Ok(InputAction::MouseButton { event: MouseButtonEvent::LeftDown, data: 0 })
    );
    assert_eq!(
        execute_step(&MacroStep::MouseUp { button: "rmb".to_string() }),
        Ok(InputAction::MouseButton { event: MouseButtonEvent::RightUp, data: 0 })
    );
    assert_eq!(
        execute_step(&MacroStep::MouseDown { button: "Middle".to_string() }),
        Ok(InputAction::MouseButton { event: MouseButtonEvent::MiddleDown, data: 0 })
    );
    assert_eq!(
        execute_step(&MacroStep::MouseDown { button: "x2".to_string() }),
        Ok(InputAction::MouseButton { event: MouseButtonEvent::XDown, data: 2 })
    );
    assert_eq!(
        execute_step(&MacroStep::MouseUp { button: "X1".to_string() }),
        Ok(InputAction::MouseButton { event: MouseButtonEvent::XUp, data: 1 })
    );
    assert_eq!(
        execute_step(&MacroStep::MouseDown { button: "thumb".to_string() }),
        Err(ExecError::UnknownButton("thumb".to_string()))
    );
    assert_eq!(execute_step(&MacroStep::KeyDown { vk: 0x41 }), Ok(InputAction::Key { vk: 0x41, key_up: false }));
    assert_eq!(execute_step(&MacroStep::KeyUp { vk: 0x41 }), Ok(InputAction::Key { vk: 0x41, key_up: true }));
    assert_eq!(
        execute_step(&MacroStep::MouseMoveRel { dx: -3, dy: 7 }),
        Ok(InputAction::MouseMove { dx: -3, dy: 7 })
    );
    assert_eq!(execute_step(&MacroStep::Delay { ms: 10 }), Ok(InputAction::Nothing));
}

#[test]
fn failure_messages() {
    assert_eq!(ExecError::Unsupported.message(), "unsupported platform");
    assert_eq!(ExecError::SendInputFailed.message(), "send_input failed");
    assert_eq!(ExecError::UnknownButton("x3".to_string()).message(), "unknown button x3");
}

#[test]
fn jitter_is_added_saturating() {
    assert_eq!(add_jitter(30, 2), 32);
    assert_eq!(add_jitter(u64::MAX - 1, 5), u64::MAX);
}
