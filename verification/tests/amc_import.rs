use macro_manager::amc_import::{
    decode_amc_bytes, finish_amc_json, parse_amc_bytes, parse_amc_text, parse_line_dsl, slug_from_name,
    AmcText,
};
use macro_manager::types::{MacroDefinition, MacroStep};

fn step_from_json(v: &serde_json::Value) -> MacroStep {
    let kind = v["type"].as_str().unwrap();
    match kind {
        "delay" => MacroStep::Delay { ms: v["ms"].as_u64().unwrap() },
        "mouse_down" => MacroStep::MouseDown { button: v["button"].as_str().unwrap().to_string() },
        "mouse_up" => MacroStep::MouseUp { button: v["button"].as_str().unwrap().to_string() },
        "key_down" => MacroStep::KeyDown { vk: v["vk"].as_u64().unwrap() as u32 },
        "key_up" => MacroStep::KeyUp { vk: v["vk"].as_u64().unwrap() as u32 },
        "mouse_move_rel" => MacroStep::MouseMoveRel {
            dx: v["dx"].as_i64().unwrap() as i32,
            dy: v["dy"].as_i64().unwrap() as i32,
        },
        other => panic!("unknown step type {other}"),
    }
}

fn macro_from_json(json: &str) -> MacroDefinition {
    let v: serde_json::Value = serde_json::from_str(json).unwrap();
    MacroDefinition {
        id: v["id"].as_str().unwrap_or("").to_string(),
        name: v["name"].as_str().unwrap_or("").to_string(),
        version: v["version"].as_u64().unwrap_or(1) as u32,
        steps: v["steps"].as_array().unwrap().iter().map(step_from_json).collect(),
    }
}

fn expect_macro(r: Result<AmcText, String>) -> MacroDefinition {
    match r {
        Ok(AmcText::Macro(m)) => m,
        Ok(AmcText::Json { .. }) => panic!("expected line commands, got JSON"),
        Err(e) => panic!("unexpected error: {e}"),
    }
}

#[test]
fn line_dsl_basic() {
    let text = "DELAY 10\nLD\nLU\nKD 0x05\n";
    let m = expect_macro(parse_amc_text(text, "test.amc"));
    assert_eq!(m.id, "test");
    assert_eq!(m.steps.len(), 4);
}

#[test]
fn json_in_amc() {
    let j = r#"{"id":"x","name":"n","version":1,"steps":[{"type":"delay","ms":5}]}"#;
    let m = match parse_amc_text(j, "f.amc") {
        Ok(AmcText::Json { json, id_fallback, name_fallback }) => {
            finish_amc_json(Ok(macro_from_json(&json)), id_fallback, name_fallback).unwrap()
        }
        _ => panic!("expected JSON"),
    };
    assert_eq!(m.id, "x");
    assert_eq!(m.steps.len(), 1);
}

#[test]
fn line_dsl_steps_in_order() {
    let m = expect_macro(parse_amc_text("DELAY 10\nLD\nLU\nKD 0x05\n", "test.amc"));
    assert_eq!(m.name, "test.amc");
    assert_eq!(m.version, 1);
    assert_eq!(
        m.steps,
        vec![
            MacroStep::Delay { ms: 10 },
            MacroStep::MouseDown { button: "left".to_string() },
            MacroStep::MouseUp { button: "left".to_string() },
            MacroStep::KeyDown { vk: 5 },
        ]
    );
}

#[test]
fn line_dsl_every_command_form() {
    let text = "# comment\n// also a comment\n\n  delay 5\nD 0x10\nwait 7\nSLEEP 1\n\
                MOUSE DOWN r\nmouse up RightButton\nMOUSE D mmb\nLMB down\nrmb U\nMMB UP\n\
                RD\nRU\nMD\nMU\nKEY DOWN 65\nkey u 0X41\nKU 16\n";
    let steps = parse_line_dsl(text).unwrap();
    assert_eq!(
        steps,
        vec![
            MacroStep::Delay { ms: 5 },
            MacroStep::Delay { ms: 16 },
            MacroStep::Delay { ms: 7 },
            MacroStep::Delay { ms: 1 },
            MacroStep::MouseDown { button: "right".to_string() },
            MacroStep::MouseUp { button: "right".to_string() },
            MacroStep::MouseDown { button: "middle".to_string() },
            MacroStep::MouseDown { button: "left".to_string() },
            MacroStep::MouseUp { button: "right".to_string() },
            MacroStep::MouseUp { button: "middle".to_string() },
            MacroStep::MouseDown { button: "right".to_string() },
            MacroStep::MouseUp { button: "right".to_string() },
            MacroStep::MouseDown { button: "middle".to_string() },
            MacroStep::MouseUp { button: "middle".to_string() },
            MacroStep::KeyDown { vk: 65 },
            MacroStep::KeyUp { vk: 0x41 },
            MacroStep::KeyUp { vk: 16 },
        ]
    );
}

#[test]
fn line_dsl_errors_name_the_line() {
    assert_eq!(parse_line_dsl("DELAY").unwrap_err(), "amc line 1: delay: missing ms");
    assert_eq!(parse_line_dsl("LD\nJUMP 3").unwrap_err(), "amc line 2: unknown command 'JUMP'");
    assert_eq!(parse_line_dsl("DELAY abc").unwrap_err(), "amc line 1: invalid digit found in string");
    assert_eq!(
        parse_line_dsl("DELAY 99999999999999999999").unwrap_err(),
        "amc line 1: number too large to fit in target type"
    );
    assert_eq!(parse_line_dsl("MOUSE DOWN X").unwrap_err(), "amc line 1: unknown mouse button 'X'");
    assert_eq!(parse_line_dsl("MOUSE SIDEWAYS L").unwrap_err(), "amc line 1: mouse: expected DOWN or UP");
    assert_eq!(parse_line_dsl("MOUSE").unwrap_err(), "amc line 1: mouse: missing DOWN/UP");
    assert_eq!(parse_line_dsl("MOUSE DOWN").unwrap_err(), "amc line 1: mouse: missing button");
    assert_eq!(parse_line_dsl("LMB").unwrap_err(), "amc line 1: mouse btn: missing DOWN/UP");
    assert_eq!(
        parse_line_dsl("RMB HOLD").unwrap_err(),
        "amc line 1: expected DOWN or UP after mouse button"
    );
    assert_eq!(parse_line_dsl("KEY").unwrap_err(), "amc line 1: key: missing DOWN/UP");
    assert_eq!(parse_line_dsl("KEY PRESS 5").unwrap_err(), "amc line 1: key: expected DOWN or UP");
    assert_eq!(parse_line_dsl("KEY DOWN").unwrap_err(), "amc line 1: key: missing vk");
    assert_eq!(
        parse_line_dsl("KEY DOWN 0xZZ").unwrap_err(),
        "amc line 1: vk hex: invalid digit found in string"
    );
    assert_eq!(parse_line_dsl("KD").unwrap_err(), "amc line 1: kd: missing vk");
    assert_eq!(parse_line_dsl("KU").unwrap_err(), "amc line 1: ku: missing vk");
    assert_eq!(parse_line_dsl("KD -1").unwrap_err(), "amc line 1: vk: invalid digit found in string");
}

#[test]
fn text_without_steps_is_refused() {
    let e = parse_amc_text("# nothing here\n\n", "empty.amc").err().unwrap();
    assert!(e.starts_with("amc: no steps found. Use JSON (same as app import) or line commands:\n"));
    assert!(e.ends_with("(see source amc_import.rs)"));
}

#[test]
fn json_fallbacks_and_empty_steps() {
    let j = r#"  {"id":" ","name":"","version":2,"steps":[{"type":"key_down","vk":70}]}"#;
    let m = match parse_amc_text(j, "My Recoil--v2.amc") {
        Ok(AmcText::Json { json, id_fallback, name_fallback }) => {
            assert!(json.starts_with('{'));
            assert_eq!(id_fallback, "my_recoil_v2");
            assert_eq!(name_fallback, "My Recoil--v2.amc");
            finish_amc_json(Ok(macro_from_json(&json)), id_fallback, name_fallback).unwrap()
        }
        _ => panic!("expected JSON"),
    };
    assert_eq!(m.id, "my_recoil_v2");
    assert_eq!(m.name, "My Recoil--v2.amc");
    assert_eq!(m.version, 2);
    assert_eq!(m.steps, vec![MacroStep::KeyDown { vk: 70 }]);

    let empty = MacroDefinition { id: "e".to_string(), name: "e".to_string(), version: 1, steps: vec![] };
    assert_eq!(
        finish_amc_json(Ok(empty), "a".to_string(), "b".to_string()).unwrap_err(),
        "amc json: steps array is empty"
    );
    assert_eq!(
        finish_amc_json(Err("expected value at line 1 column 2".to_string()), "a".to_string(), "b".to_string())
            .unwrap_err(),
        "amc json: expected value at line 1 column 2"
    );
}

#[test]
fn identifiers_from_file_names() {
    assert_eq!(slug_from_name(Some("My Macro--v2.amc".to_string())), "my_macro_v2");
    assert_eq!(slug_from_name(Some("__Spray__Pattern__.txt".to_string())), "spray_pattern");
    assert_eq!(slug_from_name(Some("___.amc".to_string())), "imported_macro");
    assert_eq!(slug_from_name(Some(".hidden".to_string())), "hidden");
    assert_eq!(slug_from_name(Some("a.b.c".to_string())), "a_b");
    assert_eq!(slug_from_name(Some("Ünïcode.amc".to_string())), "n_code");
    assert_eq!(slug_from_name(None), "imported");
    let m = expect_macro(parse_amc_text("LD", "Weird Name!!.txt"));
    assert_eq!(m.id, "weird_name");
    assert_eq!(m.name, "Weird Name!!.txt");
}

#[test]
fn slugs_have_the_identifier_shape() {
    for name in ["x", "-a-", "A__B", "..", "123", "__", "a b c", "€uro.amc", "UPPER.Case.ext"] {
        let s = slug_from_name(Some(name.to_string()));
        assert!(!s.is_empty());
        assert!(s.chars().all(|c| c.is_ascii_lowercase() || c.is_ascii_digit() || c == '_'));
        assert!(!s.contains("__"));
        assert!(!s.starts_with('_') && !s.ends_with('_'));
    }
}

#[test]
fn byte_order_marks_pick_the_encoding() {
    assert_eq!(decode_amc_bytes(b"LD\n").unwrap(), "LD\n");
    assert_eq!(decode_amc_bytes(&[0xef, 0xbb, 0xbf, b'L', b'U']).unwrap(), "LU");
    assert_eq!(decode_amc_bytes(&[0xff, 0xfe, b'M', 0, b'D', 0]).unwrap(), "MD");
    assert_eq!(decode_amc_bytes(&[0xfe, 0xff, 0, b'M', 0, b'U']).unwrap(), "MU");
    assert_eq!(decode_amc_bytes(&[0xff, 0xfe, b'M']).unwrap_err(), "utf-16le: utf-16: odd byte length");
    assert_eq!(decode_amc_bytes(&[0xfe, 0xff, 0]).unwrap_err(), "utf-16be: utf-16: odd byte length");
    let lone = decode_amc_bytes(&[0xff, 0xfe, 0x00, 0xd8]).unwrap_err();
    assert!(lone.starts_with("utf-16le: invalid utf-16: "));
    let bad = decode_amc_bytes(&[0x41, 0xff]).unwrap_err();
    assert!(bad.starts_with("utf-8: "));
    let bad_bom = decode_amc_bytes(&[0xef, 0xbb, 0xbf, 0xc3]).unwrap_err();
    assert!(bad_bom.starts_with("utf-8 (bom): "));
}

#[test]
fn bytes_with_bom_parse_as_commands() {
    let mut bytes = vec![0xff, 0xfe];
    for c in "DELAY 3\nRD".encode_utf16() {
        bytes.extend_from_slice(&c.to_le_bytes());
    }
    let m = expect_macro(parse_amc_bytes(&bytes, "spray.amc"));
    assert_eq!(m.id, "spray");
    assert_eq!(m.steps, vec![MacroStep::Delay { ms: 3 }, MacroStep::MouseDown { button: "right".to_string() }]);
    assert!(parse_amc_bytes(&[0xff, 0xfe, 0x41], "x.amc").is_err());
}

#[test]
fn names_come_from_the_last_path_component() {
    let m = expect_macro(parse_amc_text("LD", "macros/Spray One.amc"));
    assert_eq!(m.id, "spray_one");
    assert_eq!(m.name, "Spray One.amc");
}

#[test]
fn utf16_text_reads_back() {
    let text = "DELAY 5\n# \u{1F600} \u{e9}\nKU 0x41";
    let mut le = vec![0xff, 0xfe];
    let mut be = vec![0xfe, 0xff];
    for c in text.encode_utf16() {
        le.extend_from_slice(&c.to_le_bytes());
        be.extend_from_slice(&c.to_be_bytes());
    }
    assert_eq!(decode_amc_bytes(&le).unwrap(), text);
    assert_eq!(decode_amc_bytes(&be).unwrap(), text);
    let mut utf8 = vec![0xef, 0xbb, 0xbf];
    utf8.extend_from_slice(text.as_bytes());
    assert_eq!(decode_amc_bytes(&utf8).unwrap(), text);
    assert_eq!(decode_amc_bytes(text.as_bytes()).unwrap(), text);
}

#[test]
fn names_from_paths_with_directories() {
    let j = r#" {"id":" ","name":"","steps":[{"type":"key_down","vk":70}]}"#;
    match parse_amc_text(j, "dir/My Macro.amc") {
        Ok(AmcText::Json { json, id_fallback, name_fallback }) => {
            assert_eq!(id_fallback, "my_macro");
            assert_eq!(name_fallback, "My Macro.amc");
            let m = finish_amc_json(Ok(macro_from_json(&json)), id_fallback, name_fallback).unwrap();
            assert_eq!(m.id, "my_macro");
            assert_eq!(m.name, "My Macro.amc");
            assert_eq!(m.version, 1);
            assert_eq!(m.steps, vec![MacroStep::KeyDown { vk: 70 }]);
        }
        _ => panic!("expected JSON"),
    }
    let m = expect_macro(parse_amc_bytes(&[0xFF, 0xFE, 0x4C, 0x00, 0x44, 0x00], "a.amc"));
    assert_eq!(m.id, "a");
    assert_eq!(m.name, "a.amc");
    assert_eq!(m.steps, vec![MacroStep::MouseDown { button: "left".to_string() }]);
    let m = expect_macro(parse_amc_bytes(b"LU", "x/y/Spray--2.amc"));
    assert_eq!(m.id, "spray_2");
    assert_eq!(m.name, "Spray--2.amc");
    assert_eq!(parse_amc_bytes(&[0xFF, 0xFE, 0x4C], "a.amc").err().unwrap(), "utf-16le: utf-16: odd byte length");
}

#[test]
fn identifiers_read_back_as_themselves() {
    for name in ["dir/My Macro--v2.amc", "---.amc", "x", "A.B.C", "ümlaut file.txt"] {
        let s = slug_from_name(Some(name.rsplit('/').next().unwrap().to_string()));
        assert_eq!(slug_from_name(Some(s.clone())), s);
    }
    assert_eq!(slug_from_name(Some("---.amc".to_string())), "imported_macro");
}

#[test]
fn comment_lines_change_nothing() {
    let text = "DELAY 4\nLD\nKU 0x41";
    let with_comments = "# header\nDELAY 4\n   \n// note\nLD\n  # indented\nKU 0x41";
    assert_eq!(parse_line_dsl(with_comments), parse_line_dsl(text));
    assert_eq!(
        parse_line_dsl("# c\nBAD").unwrap_err(),
        "amc line 2: unknown command 'BAD'"
    );
}

#[test]
fn each_command_line_gives_one_step() {
    let text = "DELAY 4\n# x\nLD\n\nKU 0x41\n";
    let steps = parse_line_dsl(text).unwrap();
    let cmds = ["DELAY 4", "LD", "KU 0x41"];
    assert_eq!(steps.len(), cmds.len());
    for (i, c) in cmds.iter().enumerate() {
        assert_eq!(parse_line_dsl(c).unwrap(), vec![steps[i].clone()]);
    }
}

#[test]
fn comment_lines_after_the_last_line() {
    assert_eq!(parse_line_dsl("LD\n# trailing\n   \n// end"), parse_line_dsl("LD"));
    assert_eq!(parse_line_dsl("BAD\n# trailing").unwrap_err(), "amc line 1: unknown command 'BAD'");
}
