//! Parse / format hotkeys for storage + hook matching.
use vstd::prelude::*;
use crate::text::{
    is_ws, is_upper_ascii, lemma_split_join_plus, lemma_trim_plain, lemma_join_ends,
    lemma_join_upper_ascii, lemma_upper_text_fixed, lemma_trim_upper, is_ascii_seq, upper_seq,
    string_lit, string_of, push_lit, chars_of, trim, trim_chars, split_on, split_chars, views, join,
    join_chars, eq_lit, lower_seq, lower_chars, upper_text, to_uppercase, ascii_upper,
    to_ascii_upper, sub_chars,
};
use crate::fmt::{dec, hex, push_dec, push_hex, parse_uint, parse_uint_chars, digit_of, lemma_parse_dec};
use crate::types::HotkeySpec;

verus! {

/// The `MOD_*` mask of the modifier keys that are down, from the states that
/// `GetAsyncKeyState` reports for ALT, CONTROL and SHIFT (the high bit of a
/// state is set while the key is down).
pub fn async_modifiers(alt: i16, ctrl: i16, shift: i16) -> (r: u32)
    ensures
        r == (if alt < 0 { 1u32 } else { 0u32 }) + (if ctrl < 0 { 2u32 } else { 0u32 }) + (if shift < 0 { 4u32 } else { 0u32 }),
{
    let mut m: u32 = 0;
    assert((alt as u16) & 0x8000 != 0 <==> alt < 0) by (bit_vector);
    assert((ctrl as u16) & 0x8000 != 0 <==> ctrl < 0) by (bit_vector);
    assert((shift as u16) & 0x8000 != 0 <==> shift < 0) by (bit_vector);
    if (alt as u16) & 0x8000 != 0 {
        m = m + 1;
    }
    if (ctrl as u16) & 0x8000 != 0 {
        m = m + 2;
    }
    if (shift as u16) & 0x8000 != 0 {
        m = m + 4;
    }
    m
}

/// The label of a virtual-key code.
pub open spec fn vk_label_text(vk: u32) -> Seq<char> {
    if vk == 0x05 {
        "MOUSE 4"@
    } else if vk == 0x06 {
        "MOUSE 5"@
    } else if vk == 0x01 {
        "LMB"@
    } else if vk == 0x02 {
        "RMB"@
    } else if vk == 0x04 {
        "MMB"@
    } else if vk == 0x20 {
        "SPACE"@
    } else if vk == 0x08 || vk == 0x09 {
        "BACK"@
    } else if vk == 0x1B {
        "ESC"@
    } else if vk == 0x2D {
        "INS"@
    } else if vk == 0x2E {
        "DEL"@
    } else if (0x30 <= vk <= 0x39) || (0x41 <= vk <= 0x5A) {
        seq![vk as char]
    } else if 0x70 <= vk <= 0x7B {
        "F"@ + dec((vk - 0x6F) as nat)
    } else {
        "0x"@ + hex(vk as nat)
    }
}

fn vk_label(vk: u32) -> (r: String)
    ensures
        r@ == vk_label_text(vk),
{
    if vk == 0x05 {
        string_lit("MOUSE 4")
    } else if vk == 0x06 {
        string_lit("MOUSE 5")
    } else if vk == 0x01 {
        string_lit("LMB")
    } else if vk == 0x02 {
        string_lit("RMB")
    } else if vk == 0x04 {
        string_lit("MMB")
    } else if vk == 0x20 {
        string_lit("SPACE")
    } else if vk == 0x08 || vk == 0x09 {
        string_lit("BACK")
    } else if vk == 0x1B {
        string_lit("ESC")
    } else if vk == 0x2D {
        string_lit("INS")
    } else if vk == 0x2E {
        string_lit("DEL")
    } else if (0x30 <= vk && vk <= 0x39) || (0x41 <= vk && vk <= 0x5A) {
        let mut v: Vec<char> = Vec::new();
        v.push((vk as u8) as char);
        assert(v@ == seq![vk as char]);
        string_of(&v)
    } else if 0x70 <= vk && vk <= 0x7B {
        let mut s = string_lit("F");
        push_dec(&mut s, (vk - 0x6F) as u64);
        s
    } else {
        let mut s = string_lit("0x");
        push_hex(&mut s, vk as u64);
        s
    }
}

/// The words of a hotkey label: held modifiers (CTRL, SHIFT, ALT in that
/// order), then the key.
pub open spec fn hotkey_parts(spec: HotkeySpec) -> Seq<Seq<char>> {
    modifier_words(spec.modifiers).push(vk_label_text(spec.vk))
}

/// The words of the modifiers held in a `MOD_*` mask: CTRL, SHIFT, ALT.
pub open spec fn modifier_words(m: u32) -> Seq<Seq<char>> {
    (if m & 2 != 0 { seq!["CTRL"@] } else { Seq::empty() })
        + (if m & 4 != 0 { seq!["SHIFT"@] } else { Seq::empty() })
        + (if m & 1 != 0 { seq!["ALT"@] } else { Seq::empty() })
}

/// The label of a hotkey, e.g. `CTRL + SHIFT + F`.
pub open spec fn hotkey_text(spec: HotkeySpec) -> Seq<char> {
    join(hotkey_parts(spec), " + "@)
}

fn lit_chars(lit: &str) -> (r: Vec<char>)
    ensures
        r@ == lit@,
{
    chars_of(lit)
}

/// Renders a hotkey for display and storage.
pub fn format_hotkey(spec: &HotkeySpec) -> (r: String)
    ensures
        r@ == hotkey_text(*spec),
{
    let mut parts: Vec<Vec<char>> = Vec::new();
    if spec.modifiers & 2 != 0 {
        parts.push(lit_chars("CTRL"));
    }
    if spec.modifiers & 4 != 0 {
        parts.push(lit_chars("SHIFT"));
    }
    if spec.modifiers & 1 != 0 {
        parts.push(lit_chars("ALT"));
    }
    let label = vk_label(spec.vk);
    parts.push(chars_of(label.as_str()));
    assert(views(parts@) == hotkey_parts(*spec));
    join_chars(&parts, " + ")
}

/// Modifier words and the remaining words of a `+`-separated label; each
/// piece is trimmed and empty pieces are dropped.
pub open spec fn modifiers_fold(ps: Seq<Seq<char>>) -> (u32, Seq<Seq<char>>)
    decreases ps.len(),
{
    if ps.len() == 0 {
        (0, Seq::empty())
    } else {
        let (m, rest) = modifiers_fold(ps.drop_last());
        let p = trim(ps.last());
        if p.len() == 0 {
            (m, rest)
        } else if p == "CTRL"@ || p == "CONTROL"@ {
            (m | 2, rest)
        } else if p == "SHIFT"@ {
            (m | 4, rest)
        } else if p == "ALT"@ {
            (m | 1, rest)
        } else {
            (m, rest.push(p))
        }
    }
}

/// The `MOD_*` mask of a label and the rest of it, joined with ` + `.
pub open spec fn modifiers_of(upper: Seq<char>) -> (u32, Seq<char>) {
    let (m, rest) = modifiers_fold(split_on(upper, '+'));
    (m, join(rest, " + "@))
}

fn parse_modifiers(upper: &Vec<char>) -> (r: (u32, String))
    ensures
        (r.0, r.1@) == modifiers_of(upper@),
{
    let parts = split_chars(upper, '+');
    let ghost ps = views(parts@);
    let mut m: u32 = 0;
    let mut rest_parts: Vec<Vec<char>> = Vec::new();
    let mut i: usize = 0;
    assert(ps.take(0) == Seq::<Seq<char>>::empty());
    assert(views(rest_parts@) == Seq::<Seq<char>>::empty());
    while i < parts.len()
        invariant
            i <= parts@.len(),
            ps == views(parts@),
            (m, views(rest_parts@)) == modifiers_fold(ps.take(i as int)),
        decreases parts@.len() - i,
    {
        assert(ps.take(i + 1).drop_last() == ps.take(i as int));
        let p = trim_chars(&parts[i]);
        let ghost before = views(rest_parts@);
        if p.len() == 0 {
        } else if eq_lit(&p, "CTRL") || eq_lit(&p, "CONTROL") {
            m = m | 2;
        } else if eq_lit(&p, "SHIFT") {
            m = m | 4;
        } else if eq_lit(&p, "ALT") {
            m = m | 1;
        } else {
            rest_parts.push(p);
            assert(views(rest_parts@) == before.push(p@));
        }
        i = i + 1;
    }
    assert(ps.take(parts@.len() as int) == ps);
    (m, join_chars(&rest_parts, " + "))
}

/// The key code named by the key part of an upper-case label.
pub open spec fn key_of(rest: Seq<char>) -> Result<u32, Seq<char>> {
    if rest == "MOUSE 4"@ || rest == "MOUSE4"@ {
        Ok(0x05)
    } else if rest == "MOUSE 5"@ || rest == "MOUSE5"@ {
        Ok(0x06)
    } else if rest == "LMB"@ || rest == "LEFT CLICK"@ {
        Ok(0x01)
    } else if rest == "RMB"@ || rest == "RIGHT CLICK"@ {
        Ok(0x02)
    } else if rest == "MMB"@ || rest == "MIDDLE CLICK"@ {
        Ok(0x04)
    } else if rest == "SPACE"@ || rest == " "@ {
        Ok(0x20)
    } else if rest.len() > 1 && rest[0] == 'F' {
        match parse_uint(rest.skip(1), 10, u32::MAX as nat) {
            Err(_) => Err("bad F-key"@),
            Ok(n) => if 1 <= n <= 24 {
                Ok((0x6F + n) as u32)
            } else {
                Err("F-key out of range"@)
            },
        }
    } else if rest.len() == 1 && (rest[0] as u32) < 0x80 {
        let c = rest[0];
        if ('a' <= c <= 'z') || ('A' <= c <= 'Z') {
            Ok(ascii_upper(c) as u32)
        } else if '0' <= c <= '9' {
            Ok(c as u32)
        } else {
            Err("unsupported key"@)
        }
    } else {
        Err("unsupported hotkey token"@)
    }
}

/// The hotkey named by an upper-case label such as `CTRL + F` or `MOUSE 4`.
pub open spec fn hotkey_of_upper(upper: Seq<char>) -> Result<HotkeySpec, Seq<char>> {
    let (mods, rest0) = modifiers_of(upper);
    let rest = trim(rest0);
    if rest.len() == 0 {
        Err("missing key"@)
    } else {
        match key_of(rest) {
            Ok(vk) => Ok(HotkeySpec { modifiers: mods, vk }),
            Err(e) => Err(e),
        }
    }
}

pub open spec fn hotkey_res_view(r: Result<HotkeySpec, String>) -> Result<HotkeySpec, Seq<char>> {
    match r {
        Ok(h) => Ok(h),
        Err(e) => Err(e@),
    }
}

/// The key codes whose label reads back as the same key: the mouse buttons,
/// SPACE, the digits, the letters and F1 to F12.
pub open spec fn is_labelled_key(vk: u32) -> bool {
    ||| vk == 0x01 || vk == 0x02 || vk == 0x04 || vk == 0x05 || vk == 0x06 || vk == 0x20
    ||| 0x30 <= vk <= 0x39
    ||| 0x41 <= vk <= 0x5A
    ||| 0x70 <= vk <= 0x7B
}

/// Whether `w` is one of the words that name a modifier.
pub open spec fn is_modifier_word(w: Seq<char>) -> bool {
    w == "CTRL"@ || w == "CONTROL"@ || w == "SHIFT"@ || w == "ALT"@
}

/// What the round trip needs of a word of a label: it is non-empty, has no
/// whitespace at either end, no `+`, and is upper-case ASCII.
pub open spec fn is_plain_word(w: Seq<char>) -> bool {
    &&& w.len() > 0
    &&& !is_ws(w[0])
    &&& !is_ws(w.last())
    &&& forall|i: int| 0 <= i < w.len() ==> #[trigger] w[i] != '+'
    &&& is_upper_ascii(w)
}

proof fn lemma_dec_small(n: nat)
    requires
        1 <= n <= 12,
    ensures
        dec(n).len() >= 1,
        forall|i: int| 0 <= i < dec(n).len() ==> '0' <= #[trigger] dec(n)[i] <= '9',
{
    if n >= 10 {
        assert(dec(n) == dec(1).push(digit_of((n % 10) as nat)));
        assert(dec(1) == seq![digit_of(1)]);
    }
}

#[verifier::spinoff_prover]
#[verifier::rlimit(40)]
proof fn lemma_label(vk: u32)
    requires
        is_labelled_key(vk),
    ensures
        is_plain_word(vk_label_text(vk)),
        !is_modifier_word(vk_label_text(vk)),
        key_of(vk_label_text(vk)) == Ok::<u32, Seq<char>>(vk),
        lower_seq(vk_label_text(vk)) != "unbound"@,
{
    reveal_strlit("MOUSE 4");
    reveal_strlit("MOUSE4");
    reveal_strlit("MOUSE 5");
    reveal_strlit("MOUSE5");
    reveal_strlit("LMB");
    reveal_strlit("LEFT CLICK");
    reveal_strlit("RMB");
    reveal_strlit("RIGHT CLICK");
    reveal_strlit("MMB");
    reveal_strlit("MIDDLE CLICK");
    reveal_strlit("SPACE");
    reveal_strlit(" ");
    reveal_strlit("CTRL");
    reveal_strlit("CONTROL");
    reveal_strlit("SHIFT");
    reveal_strlit("ALT");
    reveal_strlit("unbound");
    reveal_strlit("F");
    let l = vk_label_text(vk);
    if 0x70 <= vk <= 0x7B {
        let n = (vk - 0x6F) as nat;
        lemma_dec_small(n);
        lemma_parse_dec(n, u32::MAX as nat);
        assert(l == "F"@ + dec(n));
        assert(l.skip(1) == dec(n));
        assert(l[0] == 'F');
        assert forall|i: int| 0 <= i < l.len() implies #[trigger] l[i] != '+' && (l[i] as u32) < 0x80
            && !('a' <= l[i] <= 'z') by {
            if i > 0 {
                assert(l[i] == dec(n)[i - 1]);
            }
        }
        assert(l.last() == dec(n)[dec(n).len() - 1]);
        assert(lower_seq(l)[0] == 'f');
    } else if (0x30 <= vk <= 0x39) || (0x41 <= vk <= 0x5A) {
        assert(l == seq![vk as char]);
        assert(lower_seq(l).len() == 1);
    } else {
        assert(lower_seq(l).len() == l.len());
        if vk == 0x05 || vk == 0x06 {
            assert(lower_seq(l)[0] == 'm');
        }
    }
}

/// The modifier words of a mask, read back, give the mask.
proof fn lemma_fold_modifier_words(m: u32)
    requires
        m < 8,
    ensures
        modifiers_fold(modifier_words(m)) == (m, Seq::<Seq<char>>::empty()),
{
    reveal_strlit("CTRL");
    reveal_strlit("CONTROL");
    reveal_strlit("SHIFT");
    reveal_strlit("ALT");
    let e = Seq::<Seq<char>>::empty();
    lemma_trim_plain("CTRL"@);
    lemma_trim_plain("SHIFT"@);
    lemma_trim_plain("ALT"@);
    let a: Seq<Seq<char>> = if m & 2 != 0 { seq!["CTRL"@] } else { e };
    let b: Seq<Seq<char>> = if m & 4 != 0 { seq!["SHIFT"@] } else { e };
    let c: Seq<Seq<char>> = if m & 1 != 0 { seq!["ALT"@] } else { e };
    let v1: u32 = if m & 2 != 0 { 0u32 | 2u32 } else { 0u32 };
    let v2: u32 = if m & 4 != 0 { v1 | 4u32 } else { v1 };
    let v3: u32 = if m & 1 != 0 { v2 | 1u32 } else { v2 };
    assert(modifiers_fold(e) == (0u32, e));
    if m & 2 != 0 {
        assert(a.drop_last() == e);
    }
    assert(modifiers_fold(a) == (v1, e));
    if m & 4 != 0 {
        assert((a + b).drop_last() == a);
        assert((a + b).last() == "SHIFT"@);
    } else {
        assert(a + b == a);
    }
    assert(modifiers_fold(a + b) == (v2, e));
    if m & 1 != 0 {
        assert((a + b + c).drop_last() == a + b);
        assert((a + b + c).last() == "ALT"@);
    } else {
        assert(a + b + c == a + b);
    }
    assert(modifiers_fold(a + b + c) == (v3, e));
    assert(v3 == m) by (bit_vector)
        requires
            m < 8,
            v1 == (if m & 2 != 0 { 0u32 | 2u32 } else { 0u32 }),
            v2 == (if m & 4 != 0 { v1 | 4u32 } else { v1 }),
            v3 == (if m & 1 != 0 { v2 | 1u32 } else { v2 });
}

/// Reading pieces whose trimmed forms agree gives the same result.
proof fn lemma_fold_trims(qs: Seq<Seq<char>>, ps: Seq<Seq<char>>)
    requires
        qs.len() == ps.len(),
        forall|k: int| 0 <= k < ps.len() ==> trim(#[trigger] qs[k]) == trim(ps[k]),
    ensures
        modifiers_fold(qs) == modifiers_fold(ps),
    decreases ps.len(),
{
    if ps.len() > 0 {
        assert(trim(qs[qs.len() - 1]) == trim(ps[ps.len() - 1]));
        lemma_fold_trims(qs.drop_last(), ps.drop_last());
    }
}

/// A label made of modifier words and a key word that names `vk` reads as
/// that hotkey.
proof fn lemma_label_reads(m: u32, vk: u32, l: Seq<char>)
    requires
        m < 8,
        is_plain_word(l),
        !is_modifier_word(l),
        key_of(l) == Ok::<u32, Seq<char>>(vk),
        lower_seq(l) != "unbound"@,
    ensures
        hotkey_of_label(join(modifier_words(m).push(l), " + "@)) == Ok::<HotkeySpec, Seq<char>>(
            HotkeySpec { modifiers: m, vk },
        ),
{
    reveal_strlit("CTRL");
    reveal_strlit("SHIFT");
    reveal_strlit("ALT");
    reveal_strlit(" + ");
    reveal_strlit("\u{2014}");
    reveal_strlit("unbound");
    let h = HotkeySpec { modifiers: m, vk };
    let ms = modifier_words(m);
    let ps = ms.push(l);
    assert forall|k: int| 0 <= k < ms.len() implies (#[trigger] ms[k] == "CTRL"@ || ms[k] == "SHIFT"@
        || ms[k] == "ALT"@) by {}
    assert forall|k: int| 0 <= k < ps.len() implies is_plain_word(#[trigger] ps[k]) by {
        if k < ms.len() {
            assert(ps[k] == ms[k]);
        }
    }
    assert forall|k: int, i: int| 0 <= k < ps.len() && 0 <= i < ps[k].len() implies #[trigger] ps[k][i] != '+' by {
        assert(is_plain_word(ps[k]));
    }
    let text = join(ps, " + "@);
    lemma_split_join_plus(ps);
    let pieces = split_on(text, '+');
    assert forall|k: int| 0 <= k < ps.len() implies trim(#[trigger] pieces[k]) == trim(ps[k]) by {}
    lemma_fold_trims(pieces, ps);
    lemma_fold_modifier_words(m);
    lemma_trim_plain(l);
    assert(ps.drop_last() == ms);
    assert(modifiers_fold(ps) == (m, seq![l]));
    assert(join(seq![l], " + "@) == l);
    assert(modifiers_of(text) == (m, l));
    assert(hotkey_of_upper(text) == Ok::<HotkeySpec, Seq<char>>(h));
    assert forall|k: int| 0 <= k < ps.len() implies (#[trigger] ps[k]).len() > 0 by {
        assert(is_plain_word(ps[k]));
    }
    lemma_join_ends(ps, " + "@);
    assert(is_plain_word(ps[0]));
    lemma_trim_plain(text);
    assert forall|k: int| 0 <= k < ps.len() implies is_upper_ascii(#[trigger] ps[k]) by {
        assert(is_plain_word(ps[k]));
    }
    lemma_join_upper_ascii(ps, " + "@);
    lemma_upper_text_fixed(text);
    assert(text != "\u{2014}"@);
    if ms.len() > 0 {
        assert(ps[0] == ms[0]);
        assert(lower_seq(text)[0] != 'u');
    } else {
        assert(ps == seq![l]);
        assert(text == l);
    }
}

/// Formatting a hotkey and reading the label back gives the same hotkey, for
/// every combination of CTRL, SHIFT and ALT and every key whose label names
/// it (mouse buttons, SPACE, digits, letters, F1 to F12).
pub proof fn lemma_hotkey_label_round_trip(h: HotkeySpec)
    requires
        h.modifiers < 8,
        is_labelled_key(h.vk),
    ensures
        hotkey_of_label(hotkey_text(h)) == Ok::<HotkeySpec, Seq<char>>(h),
{
    lemma_label(h.vk);
    assert(hotkey_parts(h) == modifier_words(h.modifiers).push(vk_label_text(h.vk)));
    lemma_label_reads(h.modifiers, h.vk, vk_label_text(h.vk));
}

/// Labels are read without regard to ASCII case: an ASCII label reads as
/// its upper-case form does.
pub proof fn lemma_label_case(t: Seq<char>)
    requires
        is_ascii_seq(t),
    ensures
        hotkey_of_label(t) == hotkey_of_label(upper_seq(t)),
{
    reveal_strlit("\u{2014}");
    lemma_trim_upper(t);
    let tt = trim(t);
    let u = upper_seq(t);
    assert(trim(u) == upper_seq(tt));
    assert(upper_seq(tt).len() == tt.len());
    if tt.len() > 0 {
        assert((tt[0] as u32) < 0x80);
        assert(tt != "\u{2014}"@);
        assert((upper_seq(tt)[0] as u32) < 0x80);
        assert(upper_seq(tt) != "\u{2014}"@);
    }
}

/// `MOUSE4` and `MOUSE5` spelled together name the same buttons as
/// `MOUSE 4` and `MOUSE 5`: in any ASCII case and after any CTRL, SHIFT and
/// ALT, a label that upper-cases to modifier words and then one of these
/// names reads as that mouse button with those modifiers.
pub proof fn lemma_mouse_labels(m: u32, t: Seq<char>)
    requires
        m < 8,
        is_ascii_seq(t),
    ensures
        upper_seq(t) == join(modifier_words(m).push("MOUSE4"@), " + "@)
            || upper_seq(t) == join(modifier_words(m).push("MOUSE 4"@), " + "@)
            ==> hotkey_of_label(t) == Ok::<HotkeySpec, Seq<char>>(HotkeySpec { modifiers: m, vk: 0x05 }),
        upper_seq(t) == join(modifier_words(m).push("MOUSE5"@), " + "@)
            || upper_seq(t) == join(modifier_words(m).push("MOUSE 5"@), " + "@)
            ==> hotkey_of_label(t) == Ok::<HotkeySpec, Seq<char>>(HotkeySpec { modifiers: m, vk: 0x06 }),
{
    lemma_label_case(t);
    lemma_label(0x05);
    lemma_label(0x06);
    lemma_mouse_word("MOUSE4"@, 0x05);
    lemma_mouse_word("MOUSE5"@, 0x06);
    lemma_label_reads(m, 0x05, "MOUSE4"@);
    lemma_label_reads(m, 0x05, "MOUSE 4"@);
    lemma_label_reads(m, 0x06, "MOUSE5"@);
    lemma_label_reads(m, 0x06, "MOUSE 5"@);
}

proof fn lemma_mouse_word(w: Seq<char>, vk: u32)
    requires
        (w == "MOUSE4"@ && vk == 0x05) || (w == "MOUSE5"@ && vk == 0x06),
    ensures
        is_plain_word(w),
        !is_modifier_word(w),
        key_of(w) == Ok::<u32, Seq<char>>(vk),
        lower_seq(w) != "unbound"@,
{
    reveal_strlit("MOUSE4");
    reveal_strlit("MOUSE5");
    reveal_strlit("MOUSE 4");
    reveal_strlit("MOUSE 5");
    reveal_strlit("CTRL");
    reveal_strlit("CONTROL");
    reveal_strlit("SHIFT");
    reveal_strlit("ALT");
    reveal_strlit("unbound");
    assert(lower_seq(w)[0] == 'm');
}

/// Reads an upper-case hotkey label.
pub fn parse_hotkey_upper(upper: &str) -> (r: Result<HotkeySpec, String>)
    ensures
        hotkey_res_view(r) == hotkey_of_upper(upper@),
{
    let (mods, rest0) = parse_modifiers(&chars_of(upper));
    let rest = trim_chars(&chars_of(rest0.as_str()));
    if rest.len() == 0 {
        return Err(string_lit("missing key"));
    }
    let vk: u32 = if eq_lit(&rest, "MOUSE 4") || eq_lit(&rest, "MOUSE4") {
        0x05
    } else if eq_lit(&rest, "MOUSE 5") || eq_lit(&rest, "MOUSE5") {
        0x06
    } else if eq_lit(&rest, "LMB") || eq_lit(&rest, "LEFT CLICK") {
        0x01
    } else if eq_lit(&rest, "RMB") || eq_lit(&rest, "RIGHT CLICK") {
        0x02
    } else if eq_lit(&rest, "MMB") || eq_lit(&rest, "MIDDLE CLICK") {
        0x04
    } else if eq_lit(&rest, "SPACE") || eq_lit(&rest, " ") {
        0x20
    } else if rest.len() > 1 && rest[0] == 'F' {
        let digits = sub_chars(&rest, 1, rest.len());
        assert(digits@ == rest@.skip(1));
        let n = match parse_uint_chars(&digits, 10, 0xFFFF_FFFF) {
            Ok(n) => n,
            Err(_) => { return Err(string_lit("bad F-key")); },
        };
        if !(1 <= n && n <= 24) {
            return Err(string_lit("F-key out of range"));
        }
        (0x6F + n) as u32
    } else if rest.len() == 1 && (rest[0] as u32) < 0x80 {
        let c = rest[0];
        if ('a' <= c && c <= 'z') || ('A' <= c && c <= 'Z') {
            to_ascii_upper(c) as u32
        } else if '0' <= c && c <= '9' {
            c as u32
        } else {
            return Err(string_lit("unsupported key"));
        }
    } else {
        return Err(string_lit("unsupported hotkey token"));
    };
    Ok(HotkeySpec { modifiers: mods, vk })
}

/// The hotkey named by a UI label like `"MOUSE 4"`, `"CTRL + F"`, `"f"`: the
/// trimmed label, upper-cased; a blank label, `—` or `unbound` names none.
pub open spec fn hotkey_of_label(s: Seq<char>) -> Result<HotkeySpec, Seq<char>> {
    let t = trim(s);
    if t.len() == 0 || t == "\u{2014}"@ || lower_seq(t) == "unbound"@ {
        Err("empty"@)
    } else {
        hotkey_of_upper(upper_text(t))
    }
}

/// Accepts UI labels like `"MOUSE 4"`, `"CTRL + F"`, `"f"`.
pub fn parse_hotkey_label(s: &str) -> (r: Result<HotkeySpec, String>)
    ensures
        hotkey_res_view(r) == hotkey_of_label(s@),
{
    let t = trim_chars(&chars_of(s));
    if t.len() == 0 || eq_lit(&t, "\u{2014}") || eq_lit(&lower_chars(&t), "unbound") {
        return Err(string_lit("empty"));
    }
    let ts = string_of(&t);
    let upper = to_uppercase(ts.as_str());
    parse_hotkey_upper(upper.as_str())
}

} // verus!
