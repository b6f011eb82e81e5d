use macro_manager::hotkey_util::{async_modifiers, format_hotkey, parse_hotkey_label, parse_hotkey_upper};
use macro_manager::types::HotkeySpec;

fn hk(modifiers: u32, vk: u32) -> HotkeySpec {
    HotkeySpec { modifiers, vk }
}

#[test]
fn labels_of_hotkeys() {
    assert_eq!(format_hotkey(&hk(0, 0x05)), "MOUSE 4");
    assert_eq!(format_hotkey(&hk(0, 0x06)), "MOUSE 5");
    assert_eq!(format_hotkey(&hk(0, 0x01)), "LMB");
    assert_eq!(format_hotkey(&hk(0, 0x02)), "RMB");
    assert_eq!(format_hotkey(&hk(0, 0x04)), "MMB");
    assert_eq!(format_hotkey(&hk(0, 0x20)), "SPACE");
    assert_eq!(format_hotkey(&hk(0, 0x08)), "BACK");
    assert_eq!(format_hotkey(&hk(0, 0x09)), "BACK");
    assert_eq!(format_hotkey(&hk(0, 0x1B)), "ESC");
    assert_eq!(format_hotkey(&hk(0, 0x2D)), "INS");
    assert_eq!(format_hotkey(&hk(0, 0x2E)), "DEL");
    assert_eq!(format_hotkey(&hk(0, 0x39)), "9");
    assert_eq!(format_hotkey(&hk(0, 0x5A)), "Z");
    assert_eq!(format_hotkey(&hk(0, 0x70)), "F1");
    assert_eq!(format_hotkey(&hk(0, 0x7B)), "F12");
    assert_eq!(format_hotkey(&hk(0, 0xA0)), "0xA0");
    assert_eq!(format_hotkey(&hk(0, 0x7C)), "0x7C");
    assert_eq!(format_hotkey(&hk(2, 0x46)), "CTRL + F");
    assert_eq!(format_hotkey(&hk(7, 0x41)), "CTRL + SHIFT + ALT + A");
    assert_eq!(format_hotkey(&hk(5, 0x74)), "SHIFT + ALT + F5");
    assert_eq!(format_hotkey(&hk(8, 0x41)), "A");
}

#[test]
fn reading_labels() {
    assert_eq!(parse_hotkey_label("MOUSE 4"), Ok(hk(0, 0x05)));
    assert_eq!(parse_hotkey_label("  mouse5 "), Ok(hk(0, 0x06)));
    assert_eq!(parse_hotkey_label("ctrl + f"), Ok(hk(2, 0x46)));
    assert_eq!(parse_hotkey_label("Control+Shift+1"), Ok(hk(6, 0x31)));
    assert_eq!(parse_hotkey_label("Shift+Alt+F5"), Ok(hk(5, 0x74)));
    assert_eq!(parse_hotkey_label("f"), Ok(hk(0, 0x46)));
    assert_eq!(parse_hotkey_label("left click"), Ok(hk(0, 0x01)));
    assert_eq!(parse_hotkey_label("Right Click"), Ok(hk(0, 0x02)));
    assert_eq!(parse_hotkey_label("middle click"), Ok(hk(0, 0x04)));
    assert_eq!(parse_hotkey_label("space"), Ok(hk(0, 0x20)));
    assert_eq!(parse_hotkey_label("F24"), Ok(hk(0, 0x87)));
    assert_eq!(parse_hotkey_label("F07"), Ok(hk(0, 0x76)));
    assert_eq!(parse_hotkey_label("F+07"), Err("bad F-key".to_string()));
    assert_eq!(parse_hotkey_label("ALT + + F"), Ok(hk(1, 0x46)));
}

#[test]
fn refused_labels() {
    assert_eq!(parse_hotkey_label(""), Err("empty".to_string()));
    assert_eq!(parse_hotkey_label("   "), Err("empty".to_string()));
    assert_eq!(parse_hotkey_label("\u{2014}"), Err("empty".to_string()));
    assert_eq!(parse_hotkey_label("UnBound"), Err("empty".to_string()));
    assert_eq!(parse_hotkey_label("CTRL +"), Err("missing key".to_string()));
    assert_eq!(parse_hotkey_label("ctrl+shift"), Err("missing key".to_string()));
    assert_eq!(parse_hotkey_label("F25"), Err("F-key out of range".to_string()));
    assert_eq!(parse_hotkey_label("F0"), Err("F-key out of range".to_string()));
    assert_eq!(parse_hotkey_label("Fx"), Err("bad F-key".to_string()));
    assert_eq!(parse_hotkey_label("!"), Err("unsupported key".to_string()));
    assert_eq!(parse_hotkey_label("BACK"), Err("unsupported hotkey token".to_string()));
    assert_eq!(parse_hotkey_label("A + B"), Err("unsupported hotkey token".to_string()));
    assert_eq!(parse_hotkey_label("é"), Err("unsupported hotkey token".to_string()));
}

#[test]
fn upper_case_labels() {
    assert_eq!(parse_hotkey_upper("CTRL + MOUSE 4"), Ok(hk(2, 0x05)));
    assert_eq!(parse_hotkey_upper("ctrl + f"), Err("unsupported hotkey token".to_string()));
}

#[test]
fn formatted_labels_read_back() {
    let mut keys: Vec<u32> = vec![0x01, 0x02, 0x04, 0x05, 0x06, 0x20];
    keys.extend(0x30..=0x39);
    keys.extend(0x41..=0x5A);
    keys.extend(0x70..=0x7B);
    for modifiers in 0..8 {
        for &vk in &keys {
            let h = hk(modifiers, vk);
            assert_eq!(parse_hotkey_label(&format_hotkey(&h)), Ok(h));
        }
    }
}

#[test]
fn modifier_mask_from_key_states() {
    assert_eq!(async_modifiers(0, 0, 0), 0);
    assert_eq!(async_modifiers(-32768, 0, 0), 1);
    assert_eq!(async_modifiers(0, -1, 0), 2);
    assert_eq!(async_modifiers(0, 0, i16::MIN + 1), 4);
    assert_eq!(async_modifiers(-5, 1, -7), 5);
    assert_eq!(async_modifiers(-1, -1, -1), 7);
    assert_eq!(async_modifiers(i16::MAX, 1, 32767), 0);
}
