//! Import of `.amc` (and related) macro payloads into [`MacroDefinition`].
//!
//! Supported:
//! - **JSON** (same shape as the JSON import): UTF-8 or UTF-16 (BOM). The text
//!   is recognised here and handed back for deserialisation.
//! - **Line DSL** (UTF-8 / UTF-16 BOM): one command per line, `#` / `//` comments.
//!   - `DELAY <ms>` | `D <ms>` | `WAIT <ms>` | `SLEEP <ms>`
//!   - `MOUSE DOWN <L|LEFT|LMB|R|RIGHT|RMB|M|MIDDLE|MMB>` — same for `UP`
//!   - `LMB DOWN` / `LMB UP`, `RMB DOWN`, …
//!   - Short: `LD` `LU` `RD` `RU` `MD` `MU`
//!   - `KEY DOWN <vk>` | `KEY UP <vk>` (`0x10` or decimal); `KD` / `KU` shortcuts.
use vstd::prelude::*;
use vstd::utf8::{valid_utf8, decode_utf8, encode_utf8, encode_utf8_valid_utf8, encode_utf8_decode_utf8, char_u32_cast, char_is_scalar, is_scalar, encode_scalar, has_width_1_encoding, has_width_2_encoding, has_width_3_encoding};
use crate::text::{
    trim_start, trim_start_chars,
    string_lit, push_lit, push_chars, chars_of, string_of, is_ascii_alnum, ascii_lower,
    to_ascii_lower, trim, trim_chars, upper_seq, upper_chars, eq_lit, starts_with, starts_with_lit,
    split_on, split_chars, words, words_of, views, is_ws, lemma_split_none, lemma_split_concat, lemma_split_pieces, is_ascii_letters, lemma_words_three,
    lemma_trim_plain,
};
use crate::fmt::{dec, push_dec, parse_uint, parse_uint_chars, int_error_text, int_error_string};
use crate::types::{MacroStep, StepView, MacroDefinition, step_views, opt_view};

verus! {

pub open spec fn res_view(r: Result<String, String>) -> Result<Seq<char>, Seq<char>> {
    match r {
        Ok(s) => Ok(s@),
        Err(e) => Err(e@),
    }
}

/// The message that `String::from_utf8` gives for invalid input.
pub uninterp spec fn utf8_error_text(bytes: Seq<u8>) -> Seq<char>;

/// `String::from_utf8`: succeeds exactly on valid UTF-8, with the decoded
/// characters; a failure is reported by its message.
#[verifier::external_body]
fn utf8_to_string(bytes: &[u8]) -> (r: Result<String, String>)
    ensures
        r is Ok <==> valid_utf8(bytes@),
        r matches Ok(s) ==> s@ == decode_utf8(bytes@),
        r matches Err(m) ==> m@ == utf8_error_text(bytes@),
{
    String::from_utf8(bytes.to_vec()).map_err(|e| e.to_string())
}

/// Decoding of UTF-16 code units: surrogate pairs combine, a lone surrogate fails.
pub open spec fn utf16_decode(u: Seq<u16>) -> Option<Seq<char>>
    decreases u.len(),
{
    if u.len() == 0 {
        Some(Seq::empty())
    } else if u[0] < 0xD800 || u[0] > 0xDFFF {
        match utf16_decode(u.drop_first()) {
            Some(rest) => Some(seq![(u[0] as u32) as char] + rest),
            None => None,
        }
    } else if u[0] <= 0xDBFF && u.len() >= 2 && 0xDC00 <= u[1] <= 0xDFFF {
        let cp = 0x10000 + (u[0] - 0xD800) * 0x400 + (u[1] - 0xDC00);
        match utf16_decode(u.subrange(2, u.len() as int)) {
            Some(rest) => Some(seq![(cp as u32) as char] + rest),
            None => None,
        }
    } else {
        None
    }
}

/// The message that `String::from_utf16` gives for invalid input.
pub uninterp spec fn utf16_error_text(units: Seq<u16>) -> Seq<char>;

/// `String::from_utf16`: decodes the code units, or fails on a lone surrogate.
#[verifier::external_body]
fn utf16_units_to_string(units: &[u16]) -> (r: Result<String, String>)
    ensures
        r matches Ok(s) ==> utf16_decode(units@) == Some(s@),
        r is Err ==> utf16_decode(units@) is None,
        r matches Err(m) ==> m@ == utf16_error_text(units@),
{
    String::from_utf16(units).map_err(|e| e.to_string())
}

/// The 16-bit units of `bytes`, two bytes each, little- or big-endian.
pub open spec fn utf16_units(bytes: Seq<u8>, little_endian: bool) -> Seq<u16> {
    Seq::new(
        bytes.len() / 2,
        |i: int|
            if little_endian {
                (bytes[2 * i] + 256 * bytes[2 * i + 1]) as u16
            } else {
                (256 * bytes[2 * i] + bytes[2 * i + 1]) as u16
            },
    )
}

/// Decoding of a UTF-16 byte payload (without its BOM).
pub open spec fn utf16_text(bytes: Seq<u8>, little_endian: bool) -> Result<Seq<char>, Seq<char>> {
    if bytes.len() % 2 != 0 {
        Err("utf-16: odd byte length"@)
    } else {
        let units = utf16_units(bytes, little_endian);
        match utf16_decode(units) {
            Some(s) => Ok(s),
            None => Err("invalid utf-16: "@ + utf16_error_text(units)),
        }
    }
}

pub open spec fn prefix_err(r: Result<Seq<char>, Seq<char>>, p: Seq<char>) -> Result<Seq<char>, Seq<char>> {
    match r {
        Ok(s) => Ok(s),
        Err(e) => Err(p + e),
    }
}

pub open spec fn utf8_text(bytes: Seq<u8>) -> Result<Seq<char>, Seq<char>> {
    if valid_utf8(bytes) {
        Ok(decode_utf8(bytes))
    } else {
        Err(utf8_error_text(bytes))
    }
}

/// The text of an `.amc` file: a UTF-8 BOM, a UTF-16LE BOM or a UTF-16BE BOM
/// selects the encoding; without a BOM the bytes are UTF-8.
pub open spec fn amc_text(b: Seq<u8>) -> Result<Seq<char>, Seq<char>> {
    if b.len() >= 3 && b[0] == 0xef && b[1] == 0xbb && b[2] == 0xbf {
        prefix_err(utf8_text(b.subrange(3, b.len() as int)), "utf-8 (bom): "@)
    } else if b.len() >= 2 && b[0] == 0xff && b[1] == 0xfe {
        prefix_err(utf16_text(b.subrange(2, b.len() as int), true), "utf-16le: "@)
    } else if b.len() >= 2 && b[0] == 0xfe && b[1] == 0xff {
        prefix_err(utf16_text(b.subrange(2, b.len() as int), false), "utf-16be: "@)
    } else {
        prefix_err(utf8_text(b), "utf-8: "@)
    }
}

/// A text stored as UTF-8 after a UTF-8 byte-order mark reads back as that
/// text.
pub proof fn lemma_utf8_bom_round_trip(text: Seq<char>)
    ensures
        amc_text(seq![0xefu8, 0xbbu8, 0xbfu8] + encode_utf8(text)) == Ok::<Seq<char>, Seq<char>>(text),
{
    let b = seq![0xefu8, 0xbbu8, 0xbfu8] + encode_utf8(text);
    assert(b.subrange(3, b.len() as int) == encode_utf8(text));
    encode_utf8_valid_utf8(text);
    encode_utf8_decode_utf8(text);
}

/// The UTF-16 code units of a text: one unit below U+10000, a surrogate pair
/// above.
pub open spec fn utf16_encode(s: Seq<char>) -> Seq<u16>
    decreases s.len(),
{
    if s.len() == 0 {
        Seq::empty()
    } else {
        let c = s[0] as u32;
        (if c < 0x10000 {
            seq![c as u16]
        } else {
            seq![(0xD800 + (c - 0x10000) / 0x400) as u16, (0xDC00 + (c - 0x10000) % 0x400) as u16]
        }) + utf16_encode(s.drop_first())
    }
}

/// The little-endian bytes of 16-bit units.
pub open spec fn le_bytes(units: Seq<u16>) -> Seq<u8> {
    Seq::new(2 * units.len(), |i: int| if i % 2 == 0 { (units[i / 2] % 256) as u8 } else { (units[i / 2] / 256) as u8 })
}

proof fn lemma_utf16_decode_encode(s: Seq<char>)
    ensures
        utf16_decode(utf16_encode(s)) == Some(s),
    decreases s.len(),
{
    if s.len() > 0 {
        let c = s[0] as u32;
        let rest = s.drop_first();
        lemma_utf16_decode_encode(rest);
        let u = utf16_encode(s);
        char_u32_cast(s[0], c);
        if c < 0x10000 {
            assert(u == seq![c as u16] + utf16_encode(rest));
            assert(u.drop_first() == utf16_encode(rest));
            assert(u[0] == c as u16);
            assert(seq![s[0]] + rest == s);
        } else {
            let hi = (0xD800 + (c - 0x10000) / 0x400) as u16;
            let lo = (0xDC00 + (c - 0x10000) % 0x400) as u16;
            assert(c <= 0x10FFFF);
            assert(0xD800 <= hi <= 0xDBFF && 0xDC00 <= lo <= 0xDFFF && 0x10000 + (hi - 0xD800) * 0x400 + (lo - 0xDC00) == c)
                by (nonlinear_arith)
                requires
                    0x10000 <= c <= 0x10FFFF,
                    hi == 0xD800 + (c - 0x10000) / 0x400,
                    lo == 0xDC00 + (c - 0x10000) % 0x400;
            assert(u == seq![hi, lo] + utf16_encode(rest));
            assert(u[0] == hi && u[1] == lo);
            assert(u.subrange(2, u.len() as int) == utf16_encode(rest));
            assert(seq![s[0]] + rest == s);
        }
    }
}

proof fn lemma_utf16_units_le(units: Seq<u16>)
    ensures
        le_bytes(units).len() % 2 == 0,
        utf16_units(le_bytes(units), true) == units,
{
    let b = le_bytes(units);
    let n = units.len();
    assert((2 * n) / 2 == n && (2 * n) % 2 == 0) by (nonlinear_arith);
    assert forall|i: int| 0 <= i < n implies #[trigger] utf16_units(b, true)[i] == units[i] by {
        assert((2 * i) % 2 == 0 && (2 * i) / 2 == i && (2 * i + 1) % 2 == 1 && (2 * i + 1) / 2 == i) by (nonlinear_arith);
        let x = units[i];
        assert(x % 256 + 256 * (x / 256) == x) by (nonlinear_arith);
        assert(x / 256 < 256) by (nonlinear_arith) requires x <= 0xFFFF;
    }
}

/// A text stored as UTF-16LE after its byte-order mark reads back as that
/// text.
pub proof fn lemma_utf16le_bom_round_trip(text: Seq<char>)
    ensures
        amc_text(seq![0xffu8, 0xfeu8] + le_bytes(utf16_encode(text))) == Ok::<Seq<char>, Seq<char>>(text),
{
    let units = utf16_encode(text);
    let b = seq![0xffu8, 0xfeu8] + le_bytes(units);
    assert(b.subrange(2, b.len() as int) == le_bytes(units));
    lemma_utf16_units_le(units);
    lemma_utf16_decode_encode(text);
}

/// The big-endian bytes of 16-bit units.
pub open spec fn be_bytes(units: Seq<u16>) -> Seq<u8> {
    Seq::new(2 * units.len(), |i: int| if i % 2 == 0 { (units[i / 2] / 256) as u8 } else { (units[i / 2] % 256) as u8 })
}

proof fn lemma_utf16_units_be(units: Seq<u16>)
    ensures
        be_bytes(units).len() % 2 == 0,
        utf16_units(be_bytes(units), false) == units,
{
    let b = be_bytes(units);
    let n = units.len();
    assert((2 * n) / 2 == n && (2 * n) % 2 == 0) by (nonlinear_arith);
    assert forall|i: int| 0 <= i < n implies #[trigger] utf16_units(b, false)[i] == units[i] by {
        assert((2 * i) % 2 == 0 && (2 * i) / 2 == i && (2 * i + 1) % 2 == 1 && (2 * i + 1) / 2 == i) by (nonlinear_arith);
        let x = units[i];
        assert(256 * (x / 256) + x % 256 == x) by (nonlinear_arith);
        assert(x / 256 < 256) by (nonlinear_arith) requires x <= 0xFFFF;
    }
}

/// A text stored as UTF-16BE after its byte-order mark reads back as that
/// text.
pub proof fn lemma_utf16be_bom_round_trip(text: Seq<char>)
    ensures
        amc_text(seq![0xfeu8, 0xffu8] + be_bytes(utf16_encode(text))) == Ok::<Seq<char>, Seq<char>>(text),
{
    let units = utf16_encode(text);
    let b = seq![0xfeu8, 0xffu8] + be_bytes(units);
    assert(b.subrange(2, b.len() as int) == be_bytes(units));
    lemma_utf16_units_be(units);
    lemma_utf16_decode_encode(text);
}

proof fn lemma_leading_byte(c: u32)
    requires
        is_scalar(c),
    ensures
        encode_scalar(c)[0] < 0xf8,
        encode_scalar(c).len() >= 3 && encode_scalar(c)[0] == 0xef && encode_scalar(c)[1] == 0xbb
            && encode_scalar(c)[2] == 0xbf ==> c == 0xFEFF,
        encode_scalar(c)[0] == 0xef ==> encode_scalar(c).len() == 3,
{
    let e = encode_scalar(c);
    if has_width_1_encoding(c) {
        assert(e[0] == ((c & 0x7F) as u8));
        assert(((c & 0x7F) as u8) < 0x80) by (bit_vector);
    } else if has_width_2_encoding(c) {
        assert(e[0] == (0xC0u8 | (((c >> 6) & 0x1F) as u8)));
        assert((0xC0u8 | (((c >> 6) & 0x1F) as u8)) <= 0xDF) by (bit_vector);
        assert(e.len() == 2);
    } else if has_width_3_encoding(c) {
        assert(e[0] == (0xE0u8 | (((c >> 12) & 0x0F) as u8)));
        assert(e[1] == (0x80u8 | (((c >> 6) & 0x3F) as u8)));
        assert(e[2] == (0x80u8 | ((c & 0x3F) as u8)));
        assert((0xE0u8 | (((c >> 12) & 0x0F) as u8)) <= 0xEF) by (bit_vector);
        assert((0xE0u8 | (((c >> 12) & 0x0F) as u8)) == 0xef && (0x80u8 | (((c >> 6) & 0x3F) as u8)) == 0xbb
            && (0x80u8 | ((c & 0x3F) as u8)) == 0xbf && c <= 0xFFFF ==> c == 0xFEFF) by (bit_vector);
    } else {
        assert(e[0] == (0xF0u8 | (((c >> 18) & 0x7) as u8)));
        assert((0xF0u8 | (((c >> 18) & 0x7) as u8)) <= 0xF7) by (bit_vector);
        assert((0xF0u8 | (((c >> 18) & 0x7) as u8)) >= 0xF0) by (bit_vector);
    }
}

/// A text stored as UTF-8 without a byte-order mark reads back as that text,
/// unless it begins with U+FEFF, which reads as the mark.
#[verifier::spinoff_prover]
#[verifier::rlimit(40)]
pub proof fn lemma_utf8_round_trip(text: Seq<char>)
    requires
        text.len() > 0 ==> text[0] != '\u{FEFF}',
    ensures
        amc_text(encode_utf8(text)) == Ok::<Seq<char>, Seq<char>>(text),
{
    let b = encode_utf8(text);
    encode_utf8_valid_utf8(text);
    encode_utf8_decode_utf8(text);
    if text.len() > 0 {
        let c = text[0] as u32;
        char_is_scalar(text[0]);
        lemma_leading_byte(c);
        let e = encode_scalar(c);
        assert(b == e + encode_utf8(text.drop_first()));
        assert(b[0] == e[0]);
        if e.len() >= 3 {
            assert(b[1] == e[1] && b[2] == e[2]);
        }
        if c == 0xFEFF {
            char_u32_cast(text[0], c);
            assert(text[0] == (0xFEFFu32 as char));
        }
    }
}

fn with_prefix(r: Result<String, String>, p: &str) -> (out: Result<String, String>)
    ensures
        res_view(out) == prefix_err(res_view(r), p@),
{
    match r {
        Ok(s) => Ok(s),
        Err(e) => {
            let mut m = string_lit(p);
            push_lit(&mut m, e.as_str());
            Err(m)
        },
    }
}

/// Decodes the bytes of an `.amc` file into text.
pub fn decode_amc_bytes(bytes: &[u8]) -> (r: Result<String, String>)
    ensures
        res_view(r) == amc_text(bytes@),
{
    let n = bytes.len();
    if n >= 3 && bytes[0] == 0xef && bytes[1] == 0xbb && bytes[2] == 0xbf {
        return with_prefix(utf8_to_string(&bytes[3..n]), "utf-8 (bom): ");
    }
    if n >= 2 && bytes[0] == 0xff && bytes[1] == 0xfe {
        return with_prefix(utf16_to_string(&bytes[2..n], true), "utf-16le: ");
    }
    if n >= 2 && bytes[0] == 0xfe && bytes[1] == 0xff {
        return with_prefix(utf16_to_string(&bytes[2..n], false), "utf-16be: ");
    }
    with_prefix(utf8_to_string(bytes), "utf-8: ")
}

fn utf16_to_string(bytes: &[u8], little_endian: bool) -> (r: Result<String, String>)
    ensures
        res_view(r) == utf16_text(bytes@, little_endian),
{
    if bytes.len() % 2 != 0 {
        return Err(string_lit("utf-16: odd byte length"));
    }
    let mut units: Vec<u16> = Vec::new();
    let mut i: usize = 0;
    let n = bytes.len();
    let half = n / 2;
    while i < half
        invariant
            n == bytes@.len(),
            half == bytes@.len() / 2,
            2 * half <= bytes@.len(),
            i <= half,
            units@ == utf16_units(bytes@, little_endian).take(i as int),
        decreases half - i,
    {
        let lo = bytes[2 * i];
        let hi = bytes[2 * i + 1];
        let u: u16 = if little_endian {
            lo as u16 + 256 * (hi as u16)
        } else {
            256 * (lo as u16) + hi as u16
        };
        units.push(u);
        assert(utf16_units(bytes@, little_endian).take(i + 1) == utf16_units(bytes@, little_endian).take(i as int).push(u));
        i = i + 1;
    }
    assert(utf16_units(bytes@, little_endian).take(half as int) == utf16_units(bytes@, little_endian));
    match utf16_units_to_string(units.as_slice()) {
        Ok(s) => Ok(s),
        Err(e) => {
            let mut m = string_lit("invalid utf-16: ");
            push_lit(&mut m, e.as_str());
            Err(m)
        },
    }
}


/// A file name that is a path of one plain component on every platform: not
/// empty, not `.` or `..`, without `/`, `\\` or `:`.
pub open spec fn is_plain_file_name(f: Seq<char>) -> bool {
    &&& f.len() > 0
    &&& f != "."@
    &&& f != ".."@
    &&& forall|i: int| 0 <= i < f.len() ==> #[trigger] f[i] != '/' && f[i] != '\\' && f[i] != ':'
}

/// Index of the last `/` of `s`, or -1.
pub open spec fn last_slash(s: Seq<char>) -> int
    decreases s.len(),
{
    if s.len() == 0 {
        -1
    } else if s.last() == '/' {
        s.len() - 1
    } else {
        last_slash(s.drop_last())
    }
}

/// A path `d/n` whose last component `n` is a plain file name and whose
/// directory part `d` reads the same on every platform: it has no `\\` and
/// no `:`, and the path does not begin with `//`.
pub open spec fn is_dir_file_name(f: Seq<char>) -> bool {
    let k = last_slash(f);
    &&& 0 <= k
    &&& is_plain_file_name(f.skip(k + 1))
    &&& forall|i: int| 0 <= i < k ==> #[trigger] f[i] != '\\' && f[i] != ':'
    &&& !(f.len() >= 2 && f[0] == '/' && f[1] == '/')
}

/// Whether the final component of path `f` is the same on every platform.
pub open spec fn has_known_file_name(f: Seq<char>) -> bool {
    is_plain_file_name(f) || is_dir_file_name(f)
}

/// The final component of a path for which [`has_known_file_name`] holds:
/// the text after its last `/`.
pub open spec fn file_component(f: Seq<char>) -> Seq<char> {
    f.skip(last_slash(f) + 1)
}

/// The final component of a path (`Path::file_name`), as text. Which part of
/// a path that is depends on the platform's path syntax, so only what holds
/// on every platform is stated: a path of one normal component is its own
/// file name, and so is the part after the last `/` of a path `d/n` whose
/// directory part has no `\\` or `:` and that does not begin with `//`.
#[verifier::external_body]
fn path_file_name(file_name: &str) -> (r: Option<String>)
    ensures
        has_known_file_name(file_name@) ==> r is Some && r->0@ == file_component(file_name@),
{
    std::path::Path::new(file_name).file_name().and_then(|s| s.to_str()).map(|s| s.to_string())
}

/// Index of the last `.` of `s`, or -1.
pub open spec fn last_dot(s: Seq<char>) -> int
    decreases s.len(),
{
    if s.len() == 0 {
        -1
    } else if s.last() == '.' {
        s.len() - 1
    } else {
        last_dot(s.drop_last())
    }
}

/// The stem of a file name (`Path::file_stem`): the portion before the final
/// `.`, or the whole name when it has no `.` or only a leading one.
pub open spec fn stem_of(name: Seq<char>) -> Seq<char> {
    let k = last_dot(name);
    if k <= 0 {
        name
    } else {
        name.take(k)
    }
}

pub open spec fn slug_char(c: char) -> char {
    if is_ascii_alnum(c) {
        ascii_lower(c)
    } else {
        '_'
    }
}

/// `s` with every run of `_` shortened to one `_`.
pub open spec fn collapse_underscores(s: Seq<char>) -> Seq<char>
    decreases s.len(),
{
    if s.len() == 0 {
        s
    } else {
        let p = collapse_underscores(s.drop_last());
        if s.last() == '_' && p.len() > 0 && p.last() == '_' {
            p
        } else {
            p.push(s.last())
        }
    }
}

/// `s` without leading `_`.
pub open spec fn trim_start_us(s: Seq<char>) -> Seq<char>
    decreases s.len(),
{
    if s.len() > 0 && s[0] == '_' {
        trim_start_us(s.drop_first())
    } else {
        s
    }
}

/// `s` without trailing `_`.
pub open spec fn trim_end_us(s: Seq<char>) -> Seq<char>
    decreases s.len(),
{
    if s.len() > 0 && s.last() == '_' {
        trim_end_us(s.drop_last())
    } else {
        s
    }
}

/// The identifier derived from a file stem: ASCII letters and digits in lower
/// case, every other run of characters as one `_`, no `_` at either end,
/// `imported_macro` when nothing is left.
pub open spec fn slug(stem: Seq<char>) -> Seq<char> {
    let t = trim_end_us(trim_start_us(collapse_underscores(stem.map_values(|c: char| slug_char(c)))));
    if t.len() == 0 {
        "imported_macro"@
    } else {
        t
    }
}

/// Whether `s` has only lower-case ASCII letters, digits and `_`.
pub open spec fn slug_chars(s: Seq<char>) -> bool {
    forall|i: int| 0 <= i < s.len() ==> ('a' <= #[trigger] s[i] <= 'z') || ('0' <= s[i] <= '9') || s[i] == '_'
}

/// Whether no two `_` of `s` are adjacent.
pub open spec fn no_double_us(s: Seq<char>) -> bool {
    forall|i: int| 0 <= i < s.len() - 1 ==> !(#[trigger] s[i] == '_' && s[i + 1] == '_')
}

/// The shape of an identifier made from a file name: not empty, lower-case
/// ASCII letters, digits and single `_` that neither starts nor ends it.
pub open spec fn is_slug(s: Seq<char>) -> bool {
    &&& s.len() > 0
    &&& slug_chars(s)
    &&& no_double_us(s)
    &&& s[0] != '_'
    &&& s.last() != '_'
}

proof fn lemma_collapse_shape(s: Seq<char>)
    requires
        slug_chars(s),
    ensures
        slug_chars(collapse_underscores(s)),
        no_double_us(collapse_underscores(s)),
    decreases s.len(),
{
    if s.len() > 0 {
        assert forall|i: int| 0 <= i < s.drop_last().len() implies ('a' <= #[trigger] s.drop_last()[i] <= 'z')
            || ('0' <= s.drop_last()[i] <= '9') || s.drop_last()[i] == '_' by {
            assert(s.drop_last()[i] == s[i]);
        }
        lemma_collapse_shape(s.drop_last());
        let p = collapse_underscores(s.drop_last());
        assert(s[s.len() - 1] == s.last());
        if !(s.last() == '_' && p.len() > 0 && p.last() == '_') {
            let q = p.push(s.last());
            assert forall|i: int| 0 <= i < q.len() - 1 implies !(#[trigger] q[i] == '_' && q[i + 1] == '_') by {
                if i < p.len() - 1 {
                    assert(q[i] == p[i] && q[i + 1] == p[i + 1]);
                } else {
                    assert(q[i] == p.last());
                }
            }
        }
    }
}

proof fn lemma_trim_start_us_shape(s: Seq<char>)
    requires
        slug_chars(s),
        no_double_us(s),
    ensures
        slug_chars(trim_start_us(s)),
        no_double_us(trim_start_us(s)),
        trim_start_us(s).len() > 0 ==> trim_start_us(s)[0] != '_',
    decreases s.len(),
{
    if s.len() > 0 && s[0] == '_' {
        let d = s.drop_first();
        assert forall|i: int| 0 <= i < d.len() implies ('a' <= #[trigger] d[i] <= 'z') || ('0' <= d[i] <= '9') || d[i] == '_' by {
            assert(d[i] == s[i + 1]);
        }
        assert forall|i: int| 0 <= i < d.len() - 1 implies !(#[trigger] d[i] == '_' && d[i + 1] == '_') by {
            assert(d[i] == s[i + 1] && d[i + 1] == s[i + 2]);
            assert(!(s[i + 1] == '_' && s[i + 2] == '_'));
        }
        lemma_trim_start_us_shape(d);
    }
}

proof fn lemma_trim_end_us_shape(s: Seq<char>)
    requires
        slug_chars(s),
        no_double_us(s),
        s.len() > 0 ==> s[0] != '_',
    ensures
        slug_chars(trim_end_us(s)),
        no_double_us(trim_end_us(s)),
        trim_end_us(s).len() > 0 ==> trim_end_us(s)[0] != '_' && trim_end_us(s).last() != '_',
    decreases s.len(),
{
    if s.len() > 0 && s.last() == '_' {
        let d = s.drop_last();
        assert forall|i: int| 0 <= i < d.len() implies ('a' <= #[trigger] d[i] <= 'z') || ('0' <= d[i] <= '9') || d[i] == '_' by {
            assert(d[i] == s[i]);
        }
        assert forall|i: int| 0 <= i < d.len() - 1 implies !(#[trigger] d[i] == '_' && d[i + 1] == '_') by {
            assert(d[i] == s[i] && d[i + 1] == s[i + 1]);
            assert(!(s[i] == '_' && s[i + 1] == '_'));
        }
        if d.len() > 0 {
            assert(d[0] == s[0]);
        }
        lemma_trim_end_us_shape(d);
    }
}

/// The identifier made from any file stem is not empty, has only lower-case
/// ASCII letters, digits and `_`, no two `_` in a row, and no `_` at either
/// end.
pub proof fn lemma_slug_shape(stem: Seq<char>)
    ensures
        is_slug(slug(stem)),
{
    reveal_strlit("imported_macro");
    let m = stem.map_values(|c: char| slug_char(c));
    assert forall|i: int| 0 <= i < m.len() implies ('a' <= #[trigger] m[i] <= 'z') || ('0' <= m[i] <= '9') || m[i] == '_' by {
        assert(m[i] == slug_char(stem[i]));
    }
    lemma_collapse_shape(m);
    let c = collapse_underscores(m);
    lemma_trim_start_us_shape(c);
    lemma_trim_end_us_shape(trim_start_us(c));
    let t = trim_end_us(trim_start_us(c));
    if t.len() == 0 {
        let im = "imported_macro"@;
        assert forall|i: int| 0 <= i < im.len() - 1 implies !(#[trigger] im[i] == '_' && im[i + 1] == '_') by {}
    }
}

proof fn lemma_no_slash_no_dot(s: Seq<char>)
    requires
        forall|i: int| 0 <= i < s.len() ==> #[trigger] s[i] != '/' && s[i] != '.',
    ensures
        last_slash(s) == -1,
        last_dot(s) == -1,
    decreases s.len(),
{
    if s.len() > 0 {
        assert(s[s.len() - 1] == s.last());
        assert forall|i: int| 0 <= i < s.drop_last().len() implies #[trigger] s.drop_last()[i] != '/'
            && s.drop_last()[i] != '.' by {
            assert(s.drop_last()[i] == s[i]);
        }
        lemma_no_slash_no_dot(s.drop_last());
    }
}

proof fn lemma_collapse_fixed(s: Seq<char>)
    requires
        no_double_us(s),
    ensures
        collapse_underscores(s) == s,
    decreases s.len(),
{
    if s.len() > 0 {
        let d = s.drop_last();
        assert forall|i: int| 0 <= i < d.len() - 1 implies !(#[trigger] d[i] == '_' && d[i + 1] == '_') by {
            assert(d[i] == s[i] && d[i + 1] == s[i + 1]);
        }
        lemma_collapse_fixed(d);
        if d.len() > 0 {
            assert(d.last() == s[s.len() - 2]);
            assert(s.last() == s[s.len() - 1]);
        }
        assert(d.push(s.last()) == s);
    }
}

/// An identifier made from a file name, used as a file name itself, gives
/// itself back: it is its own final path component and its own stem.
pub proof fn lemma_slug_idempotent(s: Seq<char>)
    requires
        is_slug(s),
    ensures
        has_known_file_name(s),
        file_component(s) == s,
        stem_of(s) == s,
        slug(stem_of(file_component(s))) == s,
{
    reveal_strlit(".");
    reveal_strlit("..");
    assert forall|i: int| 0 <= i < s.len() implies #[trigger] s[i] != '/' && s[i] != '.'
        && s[i] != '\\' && s[i] != ':' by {
        assert(('a' <= s[i] <= 'z') || ('0' <= s[i] <= '9') || s[i] == '_');
    }
    lemma_no_slash_no_dot(s);
    assert(s.skip(0) == s);
    if s == "."@ || s == ".."@ {
        assert(s[0] == '.');
    }
    let m = s.map_values(|c: char| slug_char(c));
    assert forall|i: int| 0 <= i < s.len() implies #[trigger] m[i] == s[i] by {
        assert(('a' <= s[i] <= 'z') || ('0' <= s[i] <= '9') || s[i] == '_');
    }
    assert(m == s);
    lemma_collapse_fixed(s);
    assert(trim_start_us(s) == s);
    assert(trim_end_us(s) == s);
}

/// The identifier for a file whose final path component is `name`
/// (`imported` stands in when there is none).
pub open spec fn slug_for(name: Option<Seq<char>>) -> Seq<char> {
    match name {
        Some(n) => slug(stem_of(n)),
        None => slug("imported"@),
    }
}

fn stem_chars(name: &Vec<char>) -> (r: Vec<char>)
    ensures
        r@ == stem_of(name@),
{
    let mut j: usize = name.len();
    assert(name@.take(j as int) == name@);
    while j > 0 && name[j - 1] != '.'
        invariant
            j <= name@.len(),
            last_dot(name@) == last_dot(name@.take(j as int)),
        decreases j,
    {
        assert(name@.take(j as int).drop_last() == name@.take(j - 1));
        j = j - 1;
    }
    if j <= 1 {
        let mut out: Vec<char> = Vec::new();
        let mut i: usize = 0;
        while i < name.len()
            invariant
                i <= name@.len(),
                out@ == name@.take(i as int),
            decreases name@.len() - i,
        {
            out.push(name[i]);
            assert(name@.take(i + 1) == name@.take(i as int).push(name@[i as int]));
            i = i + 1;
        }
        assert(name@.take(name@.len() as int) == name@);
        out
    } else {
        crate::text::sub_chars(name, 0, j - 1)
    }
}

/// The identifier for a file whose final path component is `name`.
pub fn slug_from_name(name: Option<String>) -> (r: String)
    ensures
        r@ == slug_for(match name { Some(n) => Some(n@), None => None }),
        is_slug(r@),
{
    proof {
        lemma_slug_for_shape(opt_view(name));
    }
    let stem: Vec<char> = match &name {
        Some(n) => stem_chars(&chars_of(n.as_str())),
        None => chars_of("imported"),
    };
    // map every character, collapsing runs of `_` on the way
    let mut mapped: Vec<char> = Vec::new();
    let mut i: usize = 0;
    let ghost m = stem@.map_values(|c: char| slug_char(c));
    while i < stem.len()
        invariant
            i <= stem@.len(),
            m == stem@.map_values(|c: char| slug_char(c)),
            mapped@ == collapse_underscores(m.take(i as int)),
        decreases stem@.len() - i,
    {
        let c = stem[i];
        let d = if ('0' <= c && c <= '9') || ('a' <= c && c <= 'z') || ('A' <= c && c <= 'Z') {
            to_ascii_lower(c)
        } else {
            '_'
        };
        assert(d == m[i as int]);
        assert(m.take(i + 1).drop_last() == m.take(i as int));
        if !(d == '_' && mapped.len() > 0 && mapped[mapped.len() - 1] == '_') {
            mapped.push(d);
        }
        i = i + 1;
    }
    assert(m.take(stem@.len() as int) == m);
    // trim `_` at both ends
    let mut a: usize = 0;
    let n = mapped.len();
    assert(mapped@.subrange(0, n as int) == mapped@);
    while a < n && mapped[a] == '_'
        invariant
            a <= n == mapped@.len(),
            trim_start_us(mapped@) == trim_start_us(mapped@.subrange(a as int, n as int)),
        decreases n - a,
    {
        assert(mapped@.subrange(a as int, n as int).drop_first() == mapped@.subrange(a + 1, n as int));
        a = a + 1;
    }
    let mut b: usize = n;
    let ghost ts = mapped@.subrange(a as int, n as int);
    assert(ts.subrange(0, (n - a) as int) == ts);
    while b > a && mapped[b - 1] == '_'
        invariant
            a <= b <= n == mapped@.len(),
            ts == mapped@.subrange(a as int, n as int),
            trim_end_us(ts) == trim_end_us(mapped@.subrange(a as int, b as int)),
        decreases b,
    {
        assert(mapped@.subrange(a as int, b as int).drop_last() == mapped@.subrange(a as int, b - 1));
        b = b - 1;
    }
    if a == b {
        string_lit("imported_macro")
    } else {
        let t = crate::text::sub_chars(&mapped, a, b);
        string_of(&t)
    }
}

/// The identifier derived from a file name's stem.
fn slug_from_file_stem(file_name: &str) -> (r: String)
    ensures
        exists|name: Option<Seq<char>>| r@ == slug_for(name),
        has_known_file_name(file_name@) ==> r@ == slug(stem_of(file_component(file_name@))),
        is_slug(r@),
        has_known_file_name(r@),
        slug(stem_of(file_component(r@))) == r@,
{
    let name = path_file_name(file_name);
    let ghost nv = match &name { Some(n) => Some(n@), None => None::<Seq<char>> };
    let r = slug_from_name(name);
    assert(r@ == slug_for(nv));
    proof {
        lemma_slug_for_shape(nv);
        lemma_slug_idempotent(r@);
    }
    r
}

/// The identifier made from any file name has the shape of [`is_slug`].
pub proof fn lemma_slug_for_shape(name: Option<Seq<char>>)
    ensures
        is_slug(slug_for(name)),
{
    match name {
        Some(n) => lemma_slug_shape(stem_of(n)),
        None => lemma_slug_shape("imported"@),
    }
}

pub open spec fn name_or(name: Option<Seq<char>>, whole: Seq<char>) -> Seq<char> {
    match name {
        Some(n) => n,
        None => whole,
    }
}

/// The display name of a file: its final path component, or the whole text.
fn display_name_from_file(file_name: &str) -> (r: String)
    ensures
        exists|name: Option<Seq<char>>| r@ == #[trigger] name_or(name, file_name@),
        has_known_file_name(file_name@) ==> r@ == file_component(file_name@),
{
    match path_file_name(file_name) {
        Some(n) => {
            assert(n@ == name_or(Some(n@), file_name@));
            n
        },
        None => {
            let r = string_lit(file_name);
            assert(r@ == name_or(None, file_name@));
            r
        },
    }
}


/// The message for a failure on line `lineno` (counted from 0).
pub open spec fn err_line_text(lineno: nat, msg: Seq<char>) -> Seq<char> {
    "amc line "@ + dec(lineno + 1) + ": "@ + msg
}

fn err_line(lineno: usize, msg: &str) -> (r: String)
    requires
        lineno < usize::MAX,
    ensures
        r@ == err_line_text(lineno as nat, msg@),
{
    let mut s = string_lit("amc line ");
    push_dec(&mut s, (lineno + 1) as u64);
    push_lit(&mut s, ": ");
    push_lit(&mut s, msg);
    s
}

/// `DOWN`/`D` give `Some(true)`, `UP`/`U` give `Some(false)` (any ASCII case).
pub open spec fn dir_of(tok: Seq<char>) -> Option<bool> {
    let u = upper_seq(tok);
    if u == "DOWN"@ || u == "D"@ {
        Some(true)
    } else if u == "UP"@ || u == "U"@ {
        Some(false)
    } else {
        None
    }
}

fn dir_of_chars(tok: &Vec<char>) -> (r: Option<bool>)
    ensures
        r == dir_of(tok@),
{
    let u = upper_chars(tok);
    if eq_lit(&u, "DOWN") || eq_lit(&u, "D") {
        Some(true)
    } else if eq_lit(&u, "UP") || eq_lit(&u, "U") {
        Some(false)
    } else {
        None
    }
}

#[derive(Clone, Copy)]
enum MouseDir {
    Down,
    Up,
}

#[derive(Clone, Copy)]
enum KeyDir {
    Down,
    Up,
}

/// The canonical name of a mouse-button word.
pub open spec fn mouse_button_of(tok: Seq<char>) -> Result<Seq<char>, Seq<char>> {
    let u = upper_seq(tok);
    if u == "L"@ || u == "LEFT"@ || u == "LMB"@ || u == "LEFTBUTTON"@ {
        Ok("left"@)
    } else if u == "R"@ || u == "RIGHT"@ || u == "RMB"@ || u == "RIGHTBUTTON"@ {
        Ok("right"@)
    } else if u == "M"@ || u == "MIDDLE"@ || u == "MMB"@ || u == "MIDDLEBUTTON"@ {
        Ok("middle"@)
    } else {
        Err("unknown mouse button '"@ + tok + "'"@)
    }
}

fn normalize_mouse_btn(s: &Vec<char>) -> (r: Result<String, String>)
    ensures
        res_view(r) == mouse_button_of(s@),
{
    let u = upper_chars(s);
    if eq_lit(&u, "L") || eq_lit(&u, "LEFT") || eq_lit(&u, "LMB") || eq_lit(&u, "LEFTBUTTON") {
        Ok(string_lit("left"))
    } else if eq_lit(&u, "R") || eq_lit(&u, "RIGHT") || eq_lit(&u, "RMB") || eq_lit(&u, "RIGHTBUTTON") {
        Ok(string_lit("right"))
    } else if eq_lit(&u, "M") || eq_lit(&u, "MIDDLE") || eq_lit(&u, "MMB") || eq_lit(&u, "MIDDLEBUTTON") {
        Ok(string_lit("middle"))
    } else {
        let mut m = string_lit("unknown mouse button '");
        push_chars(&mut m, s);
        push_lit(&mut m, "'");
        Err(m)
    }
}

/// `MOUSE <dir> <button>`: the words after `MOUSE`.
pub open spec fn mouse_line(rest: Seq<Seq<char>>) -> Result<(bool, Seq<char>), Seq<char>> {
    if rest.len() == 0 {
        Err("mouse: missing DOWN/UP"@)
    } else {
        match dir_of(rest[0]) {
            None => Err("mouse: expected DOWN or UP"@),
            Some(d) => if rest.len() < 2 {
                Err("mouse: missing button"@)
            } else {
                match mouse_button_of(rest[1]) {
                    Ok(b) => Ok((d, b)),
                    Err(e) => Err(e),
                }
            },
        }
    }
}

fn parse_mouse_line(tokens: &[Vec<char>]) -> (r: Result<(MouseDir, String), String>)
    ensures
        match mouse_line(views(tokens@)) {
            Ok((d, b)) => r matches Ok((rd, rb)) && (rd is Down) == d && rb@ == b,
            Err(e) => r matches Err(re) && re@ == e,
        },
{
    if tokens.len() == 0 {
        return Err(string_lit("mouse: missing DOWN/UP"));
    }
    let dir = match dir_of_chars(&tokens[0]) {
        Some(true) => MouseDir::Down,
        Some(false) => MouseDir::Up,
        None => { return Err(string_lit("mouse: expected DOWN or UP")); },
    };
    if tokens.len() < 2 {
        return Err(string_lit("mouse: missing button"));
    }
    let btn = normalize_mouse_btn(&tokens[1])?;
    Ok((dir, btn))
}

/// `LMB <dir>` and friends: the words after the button word.
pub open spec fn mouse_dir_line(rest: Seq<Seq<char>>) -> Result<bool, Seq<char>> {
    if rest.len() == 0 {
        Err("mouse btn: missing DOWN/UP"@)
    } else {
        match dir_of(rest[0]) {
            Some(d) => Ok(d),
            None => Err("expected DOWN or UP after mouse button"@),
        }
    }
}

fn parse_mouse_dir_down_up(tokens: &[Vec<char>]) -> (r: Result<MouseDir, String>)
    ensures
        match mouse_dir_line(views(tokens@)) {
            Ok(d) => r matches Ok(rd) && (rd is Down) == d,
            Err(e) => r matches Err(re) && re@ == e,
        },
{
    if tokens.len() == 0 {
        return Err(string_lit("mouse btn: missing DOWN/UP"));
    }
    match dir_of_chars(&tokens[0]) {
        Some(true) => Ok(MouseDir::Down),
        Some(false) => Ok(MouseDir::Up),
        None => Err(string_lit("expected DOWN or UP after mouse button")),
    }
}

/// A virtual-key code: `0x`/`0X` and hexadecimal digits, or decimal digits.
pub open spec fn vk_of(tok: Seq<char>) -> Result<u32, Seq<char>> {
    let t = trim(tok);
    if starts_with(t, "0x"@) || starts_with(t, "0X"@) {
        match parse_uint(t.skip(2), 16, u32::MAX as nat) {
            Ok(v) => Ok(v as u32),
            Err(k) => Err("vk hex: "@ + int_error_text(k)),
        }
    } else {
        match parse_uint(t, 10, u32::MAX as nat) {
            Ok(v) => Ok(v as u32),
            Err(k) => Err("vk: "@ + int_error_text(k)),
        }
    }
}

/// A count of milliseconds: `0x`/`0X` and hexadecimal digits, or decimal digits.
pub open spec fn u64_of(tok: Seq<char>) -> Result<u64, Seq<char>> {
    let t = trim(tok);
    if starts_with(t, "0x"@) || starts_with(t, "0X"@) {
        match parse_uint(t.skip(2), 16, u64::MAX as nat) {
            Ok(v) => Ok(v as u64),
            Err(k) => Err(int_error_text(k)),
        }
    } else {
        match parse_uint(t, 10, u64::MAX as nat) {
            Ok(v) => Ok(v as u64),
            Err(k) => Err(int_error_text(k)),
        }
    }
}


fn parse_vk(s: &Vec<char>) -> (r: Result<u32, String>)
    ensures
        match vk_of(s@) {
            Ok(v) => r == Ok::<u32, String>(v),
            Err(e) => r matches Err(re) && re@ == e,
        },
{
    let t = trim_chars(s);
    proof {
        reveal_strlit("0x");
        reveal_strlit("0X");
    }
    if starts_with_lit(&t, "0x") || starts_with_lit(&t, "0X") {
        let hex = crate::text::sub_chars(&t, 2, t.len());
        assert(hex@ == t@.skip(2));
        match parse_uint_chars(&hex, 16, 0xFFFF_FFFF) {
            Ok(v) => Ok(v as u32),
            Err(k) => {
                let mut m = string_lit("vk hex: ");
                push_lit(&mut m, int_error_string(k).as_str());
                Err(m)
            },
        }
    } else {
        match parse_uint_chars(&t, 10, 0xFFFF_FFFF) {
            Ok(v) => Ok(v as u32),
            Err(k) => {
                let mut m = string_lit("vk: ");
                push_lit(&mut m, int_error_string(k).as_str());
                Err(m)
            },
        }
    }
}

fn parse_u64(s: &Vec<char>) -> (r: Result<u64, String>)
    ensures
        match u64_of(s@) {
            Ok(v) => r == Ok::<u64, String>(v),
            Err(e) => r matches Err(re) && re@ == e,
        },
{
    let t = trim_chars(s);
    proof {
        reveal_strlit("0x");
        reveal_strlit("0X");
    }
    if starts_with_lit(&t, "0x") || starts_with_lit(&t, "0X") {
        let hex = crate::text::sub_chars(&t, 2, t.len());
        assert(hex@ == t@.skip(2));
        match parse_uint_chars(&hex, 16, 0xFFFF_FFFF_FFFF_FFFF) {
            Ok(v) => Ok(v),
            Err(k) => Err(int_error_string(k)),
        }
    } else {
        match parse_uint_chars(&t, 10, 0xFFFF_FFFF_FFFF_FFFF) {
            Ok(v) => Ok(v),
            Err(k) => Err(int_error_string(k)),
        }
    }
}

/// `KEY <dir> <vk>`: the words after `KEY`.
pub open spec fn key_line(rest: Seq<Seq<char>>) -> Result<(bool, u32), Seq<char>> {
    if rest.len() == 0 {
        Err("key: missing DOWN/UP"@)
    } else {
        match dir_of(rest[0]) {
            None => Err("key: expected DOWN or UP"@),
            Some(d) => if rest.len() < 2 {
                Err("key: missing vk"@)
            } else {
                match vk_of(rest[1]) {
                    Ok(v) => Ok((d, v)),
                    Err(e) => Err(e),
                }
            },
        }
    }
}

fn parse_key_line(tokens: &[Vec<char>]) -> (r: Result<(KeyDir, u32), String>)
    ensures
        match key_line(views(tokens@)) {
            Ok((d, v)) => r matches Ok((rd, rv)) && (rd is Down) == d && rv == v,
            Err(e) => r matches Err(re) && re@ == e,
        },
{
    if tokens.len() == 0 {
        return Err(string_lit("key: missing DOWN/UP"));
    }
    let dir = match dir_of_chars(&tokens[0]) {
        Some(true) => KeyDir::Down,
        Some(false) => KeyDir::Up,
        None => { return Err(string_lit("key: expected DOWN or UP")); },
    };
    if tokens.len() < 2 {
        return Err(string_lit("key: missing vk"));
    }
    let vk = parse_vk(&tokens[1])?;
    Ok((dir, vk))
}


/// What one line of the DSL contributes.
pub enum LineOutcome {
    Skip,
    Step(StepView),
    Fail(Seq<char>),
}

pub open spec fn button_step(down: bool, b: Seq<char>) -> StepView {
    if down {
        StepView::MouseDown(b)
    } else {
        StepView::MouseUp(b)
    }
}

pub open spec fn key_step(down: bool, vk: u32) -> StepView {
    if down {
        StepView::KeyDown(vk)
    } else {
        StepView::KeyUp(vk)
    }
}

/// The step a command line gives; `toks` are its words (at least one).
pub open spec fn dsl_command(toks: Seq<Seq<char>>, lineno: nat) -> LineOutcome {
    let t0 = upper_seq(toks[0]);
    let rest = toks.drop_first();
    if t0 == "DELAY"@ || t0 == "D"@ || t0 == "WAIT"@ || t0 == "SLEEP"@ {
        if rest.len() == 0 {
            LineOutcome::Fail(err_line_text(lineno, "delay: missing ms"@))
        } else {
            match u64_of(rest[0]) {
                Ok(n) => LineOutcome::Step(StepView::Delay(n)),
                Err(e) => LineOutcome::Fail(err_line_text(lineno, e)),
            }
        }
    } else if t0 == "MOUSE"@ {
        match mouse_line(rest) {
            Ok((d, b)) => LineOutcome::Step(button_step(d, b)),
            Err(e) => LineOutcome::Fail(err_line_text(lineno, e)),
        }
    } else if t0 == "KEY"@ {
        match key_line(rest) {
            Ok((d, v)) => LineOutcome::Step(key_step(d, v)),
            Err(e) => LineOutcome::Fail(err_line_text(lineno, e)),
        }
    } else if t0 == "LMB"@ || t0 == "RMB"@ || t0 == "MMB"@ {
        let b = if t0 == "LMB"@ {
            "left"@
        } else if t0 == "RMB"@ {
            "right"@
        } else {
            "middle"@
        };
        match mouse_dir_line(rest) {
            Ok(d) => LineOutcome::Step(button_step(d, b)),
            Err(e) => LineOutcome::Fail(err_line_text(lineno, e)),
        }
    } else if t0 == "LD"@ {
        LineOutcome::Step(StepView::MouseDown("left"@))
    } else if t0 == "LU"@ {
        LineOutcome::Step(StepView::MouseUp("left"@))
    } else if t0 == "RD"@ {
        LineOutcome::Step(StepView::MouseDown("right"@))
    } else if t0 == "RU"@ {
        LineOutcome::Step(StepView::MouseUp("right"@))
    } else if t0 == "MD"@ {
        LineOutcome::Step(StepView::MouseDown("middle"@))
    } else if t0 == "MU"@ {
        LineOutcome::Step(StepView::MouseUp("middle"@))
    } else if t0 == "KD"@ || t0 == "KU"@ {
        if rest.len() == 0 {
            LineOutcome::Fail(
                err_line_text(lineno, if t0 == "KD"@ { "kd: missing vk"@ } else { "ku: missing vk"@ }),
            )
        } else {
            match vk_of(rest[0]) {
                Ok(v) => LineOutcome::Step(key_step(t0 == "KD"@, v)),
                Err(e) => LineOutcome::Fail(err_line_text(lineno, e)),
            }
        }
    } else {
        LineOutcome::Fail(err_line_text(lineno, "unknown command '"@ + toks[0] + "'"@))
    }
}

/// What line `lineno` (counted from 0) contributes: blank lines and lines
/// starting with `#` or `//` (after trimming) contribute nothing.
pub open spec fn dsl_line(line: Seq<char>, lineno: nat) -> LineOutcome {
    let l = trim(line);
    if l.len() == 0 || l[0] == '#' || starts_with(l, "//"@) {
        LineOutcome::Skip
    } else if words(l).len() == 0 {
        LineOutcome::Skip
    } else {
        dsl_command(words(l), lineno)
    }
}

/// The steps of the lines in order; the first failing line decides the error.
pub open spec fn dsl_fold(ls: Seq<Seq<char>>) -> Result<Seq<StepView>, Seq<char>>
    decreases ls.len(),
{
    if ls.len() == 0 {
        Ok(Seq::empty())
    } else {
        match dsl_fold(ls.drop_last()) {
            Err(e) => Err(e),
            Ok(steps) => match dsl_line(ls.last(), (ls.len() - 1) as nat) {
                LineOutcome::Skip => Ok(steps),
                LineOutcome::Step(st) => Ok(steps.push(st)),
                LineOutcome::Fail(e) => Err(e),
            },
        }
    }
}

/// The steps of a DSL text, read line by line (lines end at `\n`; a `\r`
/// before it is whitespace and trimmed away).
pub open spec fn dsl_steps(text: Seq<char>) -> Result<Seq<StepView>, Seq<char>> {
    dsl_fold(split_on(text, '\n'))
}

enum LineResult {
    Skip,
    Step(MacroStep),
    Fail(String),
}

spec fn line_result_view(r: LineResult) -> LineOutcome {
    match r {
        LineResult::Skip => LineOutcome::Skip,
        LineResult::Step(s) => LineOutcome::Step(s@),
        LineResult::Fail(e) => LineOutcome::Fail(e@),
    }
}

fn fail_line(lineno: usize, e: String) -> (r: LineResult)
    requires
        lineno < usize::MAX,
    ensures
        line_result_view(r) == LineOutcome::Fail(err_line_text(lineno as nat, e@)),
{
    LineResult::Fail(err_line(lineno, e.as_str()))
}

fn mouse_step(down: bool, button: String) -> (r: MacroStep)
    ensures
        r@ == button_step(down, button@),
{
    if down {
        MacroStep::MouseDown { button }
    } else {
        MacroStep::MouseUp { button }
    }
}

fn parse_command(toks: &Vec<Vec<char>>, lineno: usize) -> (r: LineResult)
    requires
        toks@.len() >= 1,
        lineno < usize::MAX,
    ensures
        line_result_view(r) == dsl_command(views(toks@), lineno as nat),
{
    let t0 = upper_chars(&toks[0]);
    let rest = &toks.as_slice()[1..toks.len()];
    assert(views(rest@) == views(toks@).drop_first());
    if eq_lit(&t0, "DELAY") || eq_lit(&t0, "D") || eq_lit(&t0, "WAIT") || eq_lit(&t0, "SLEEP") {
        if rest.len() == 0 {
            return LineResult::Fail(err_line(lineno, "delay: missing ms"));
        }
        match parse_u64(&rest[0]) {
            Ok(n) => LineResult::Step(MacroStep::Delay { ms: n }),
            Err(e) => fail_line(lineno, e),
        }
    } else if eq_lit(&t0, "MOUSE") {
        match parse_mouse_line(rest) {
            Ok((dir, btn)) => LineResult::Step(mouse_step(matches!(dir, MouseDir::Down), btn)),
            Err(e) => fail_line(lineno, e),
        }
    } else if eq_lit(&t0, "KEY") {
        match parse_key_line(rest) {
            Ok((dir, vk)) => match dir {
                KeyDir::Down => LineResult::Step(MacroStep::KeyDown { vk }),
                KeyDir::Up => LineResult::Step(MacroStep::KeyUp { vk }),
            },
            Err(e) => fail_line(lineno, e),
        }
    } else if eq_lit(&t0, "LMB") || eq_lit(&t0, "RMB") || eq_lit(&t0, "MMB") {
        let btn = if eq_lit(&t0, "LMB") {
            string_lit("left")
        } else if eq_lit(&t0, "RMB") {
            string_lit("right")
        } else {
            string_lit("middle")
        };
        match parse_mouse_dir_down_up(rest) {
            Ok(dir) => LineResult::Step(mouse_step(matches!(dir, MouseDir::Down), btn)),
            Err(e) => fail_line(lineno, e),
        }
    } else if eq_lit(&t0, "LD") {
        LineResult::Step(MacroStep::MouseDown { button: string_lit("left") })
    } else if eq_lit(&t0, "LU") {
        LineResult::Step(MacroStep::MouseUp { button: string_lit("left") })
    } else if eq_lit(&t0, "RD") {
        LineResult::Step(MacroStep::MouseDown { button: string_lit("right") })
    } else if eq_lit(&t0, "RU") {
        LineResult::Step(MacroStep::MouseUp { button: string_lit("right") })
    } else if eq_lit(&t0, "MD") {
        LineResult::Step(MacroStep::MouseDown { button: string_lit("middle") })
    } else if eq_lit(&t0, "MU") {
        LineResult::Step(MacroStep::MouseUp { button: string_lit("middle") })
    } else if eq_lit(&t0, "KD") {
        if rest.len() == 0 {
            return LineResult::Fail(err_line(lineno, "kd: missing vk"));
        }
        match parse_vk(&rest[0]) {
            Ok(vk) => LineResult::Step(MacroStep::KeyDown { vk }),
            Err(e) => fail_line(lineno, e),
        }
    } else if eq_lit(&t0, "KU") {
        if rest.len() == 0 {
            return LineResult::Fail(err_line(lineno, "ku: missing vk"));
        }
        match parse_vk(&rest[0]) {
            Ok(vk) => LineResult::Step(MacroStep::KeyUp { vk }),
            Err(e) => fail_line(lineno, e),
        }
    } else {
        let mut m = string_lit("unknown command '");
        push_chars(&mut m, &toks[0]);
        push_lit(&mut m, "'");
        fail_line(lineno, m)
    }
}

fn parse_dsl_line(raw: &Vec<char>, lineno: usize) -> (r: LineResult)
    requires
        lineno < usize::MAX,
    ensures
        line_result_view(r) == dsl_line(raw@, lineno as nat),
{
    let line = trim_chars(raw);
    if line.len() == 0 || line[0] == '#' || starts_with_lit(&line, "//") {
        return LineResult::Skip;
    }
    let tokens = words_of(&line);
    if tokens.len() == 0 {
        return LineResult::Skip;
    }
    parse_command(&tokens, lineno)
}

proof fn lemma_dsl_fold_err(ls: Seq<Seq<char>>, i: int)
    requires
        0 <= i <= ls.len(),
        dsl_fold(ls.take(i)) is Err,
    ensures
        dsl_fold(ls) == dsl_fold(ls.take(i)),
    decreases ls.len() - i,
{
    if i < ls.len() {
        assert(ls.take(i + 1).drop_last() == ls.take(i));
        lemma_dsl_fold_err(ls, i + 1);
    } else {
        assert(ls.take(i) == ls);
    }
}

/// Whether a line contributes no step: blank, or a `#` or `//` comment.
pub open spec fn is_blank_or_comment(l: Seq<char>) -> bool {
    let t = trim(l);
    t.len() == 0 || t[0] == '#' || starts_with(t, "//"@)
}

proof fn lemma_line_lineno(l: Seq<char>, n: nat, m: nat)
    ensures
        (dsl_line(l, n) is Skip) == (dsl_line(l, m) is Skip),
        (dsl_line(l, n) is Fail) == (dsl_line(l, m) is Fail),
        dsl_line(l, n) matches LineOutcome::Step(st) ==> dsl_line(l, m) == LineOutcome::Step(st),
{
}

proof fn lemma_fold_insert(ls: Seq<Seq<char>>, i: int, l: Seq<char>)
    requires
        0 <= i <= ls.len(),
        is_blank_or_comment(l),
    ensures
        (dsl_fold(ls.insert(i, l)) is Ok) == (dsl_fold(ls) is Ok),
        dsl_fold(ls) is Ok ==> dsl_fold(ls.insert(i, l)) == dsl_fold(ls),
    decreases ls.len(),
{
    let ls2 = ls.insert(i, l);
    if i == ls.len() {
        assert(ls2.drop_last() == ls);
        assert(ls2.last() == l);
    } else {
        lemma_fold_insert(ls.drop_last(), i, l);
        assert(ls2.drop_last() == ls.drop_last().insert(i, l));
        assert(ls2.last() == ls.last());
        lemma_line_lineno(ls.last(), (ls2.len() - 1) as nat, (ls.len() - 1) as nat);
    }
}

/// The lines of a list that give a step: neither blank nor comments.
pub open spec fn command_lines(ls: Seq<Seq<char>>) -> Seq<Seq<char>>
    decreases ls.len(),
{
    if ls.len() == 0 {
        ls
    } else {
        let p = command_lines(ls.drop_last());
        if dsl_line(ls.last(), 0) is Skip {
            p
        } else {
            p.push(ls.last())
        }
    }
}

proof fn lemma_fold_lines(ls: Seq<Seq<char>>)
    requires
        dsl_fold(ls) is Ok,
    ensures
        dsl_fold(ls)->Ok_0.len() == command_lines(ls).len(),
        forall|i: int| 0 <= i < command_lines(ls).len() ==> dsl_line(#[trigger] command_lines(ls)[i], 0)
            == LineOutcome::Step(dsl_fold(ls)->Ok_0[i]),
    decreases ls.len(),
{
    if ls.len() > 0 {
        lemma_fold_lines(ls.drop_last());
        lemma_line_lineno(ls.last(), (ls.len() - 1) as nat, 0);
        let p = command_lines(ls.drop_last());
        let v0 = dsl_fold(ls.drop_last())->Ok_0;
        let c = command_lines(ls);
        let v = dsl_fold(ls)->Ok_0;
        assert forall|i: int| 0 <= i < c.len() implies dsl_line(#[trigger] c[i], 0) == LineOutcome::Step(v[i]) by {
            if i < p.len() {
                assert(c[i] == p[i]);
                assert(v[i] == v0[i]);
            }
        }
    }
}

/// The steps of a text are those of its command lines (neither blank nor
/// comments), each read alone, in order: one step per command line.
pub proof fn lemma_steps_by_line(text: Seq<char>)
    requires
        dsl_steps(text) is Ok,
    ensures
        dsl_steps(text)->Ok_0.len() == command_lines(split_on(text, '\n')).len(),
        forall|i: int| 0 <= i < command_lines(split_on(text, '\n')).len() ==> dsl_steps(
            #[trigger] command_lines(split_on(text, '\n'))[i],
        ) == Ok::<Seq<StepView>, Seq<char>>(seq![dsl_steps(text)->Ok_0[i]]),
{
    let ls = split_on(text, '\n');
    lemma_fold_lines(ls);
    lemma_split_pieces(text, '\n');
    lemma_command_lines_from(ls);
    let c = command_lines(ls);
    assert forall|i: int| 0 <= i < c.len() implies dsl_steps(#[trigger] c[i])
        == Ok::<Seq<StepView>, Seq<char>>(seq![dsl_steps(text)->Ok_0[i]]) by {
        let k = choose|k: int| 0 <= k < ls.len() && ls[k] == c[i];
        assert forall|j: int| 0 <= j < c[i].len() implies c[i][j] != '\n' by {
            assert(ls[k][j] != '\n');
        }
        lemma_split_none(c[i], '\n');
        let one = seq![c[i]];
        assert(split_on(c[i], '\n') == one);
        assert(one.drop_last() == Seq::<Seq<char>>::empty());
        assert(dsl_fold(Seq::<Seq<char>>::empty()) == Ok::<Seq<StepView>, Seq<char>>(Seq::empty()));
        assert(one.last() == c[i]);
        assert(dsl_line(c[i], 0) == LineOutcome::Step(dsl_steps(text)->Ok_0[i]));
        assert(Seq::<StepView>::empty().push(dsl_steps(text)->Ok_0[i]) == seq![dsl_steps(text)->Ok_0[i]]);
    }
}

proof fn lemma_command_lines_from(ls: Seq<Seq<char>>)
    ensures
        forall|i: int| 0 <= i < command_lines(ls).len() ==> exists|k: int| 0 <= k < ls.len() && ls[k] == #[trigger] command_lines(ls)[i],
    decreases ls.len(),
{
    if ls.len() > 0 {
        lemma_command_lines_from(ls.drop_last());
        let p = command_lines(ls.drop_last());
        let c = command_lines(ls);
        assert forall|i: int| 0 <= i < c.len() implies exists|k: int| 0 <= k < ls.len() && ls[k] == #[trigger] c[i] by {
            if i < p.len() {
                assert(c[i] == p[i]);
                let k = choose|k: int| 0 <= k < ls.drop_last().len() && ls.drop_last()[k] == p[i];
                assert(ls[k] == c[i]);
            } else {
                assert(ls[ls.len() - 1] == c[i]);
            }
        }
    }
}

/// The direction words of the line commands (`DOWN`/`D` press, `UP`/`U`
/// release), in any ASCII case.
pub open spec fn documented_direction(d: Seq<char>) -> Option<bool> {
    if set!["DOWN"@, "D"@].contains(upper_seq(d)) {
        Some(true)
    } else if set!["UP"@, "U"@].contains(upper_seq(d)) {
        Some(false)
    } else {
        None
    }
}

/// The button words of the line commands, in any ASCII case: `L`, `LEFT`,
/// `LMB`, `LEFTBUTTON` name the left button; `R`, `RIGHT`, `RMB`,
/// `RIGHTBUTTON` the right one; `M`, `MIDDLE`, `MMB`, `MIDDLEBUTTON` the
/// middle one.
pub open spec fn documented_button(w: Seq<char>) -> Option<Seq<char>> {
    if set!["L"@, "LEFT"@, "LMB"@, "LEFTBUTTON"@].contains(upper_seq(w)) {
        Some("left"@)
    } else if set!["R"@, "RIGHT"@, "RMB"@, "RIGHTBUTTON"@].contains(upper_seq(w)) {
        Some("right"@)
    } else if set!["M"@, "MIDDLE"@, "MMB"@, "MIDDLEBUTTON"@].contains(upper_seq(w)) {
        Some("middle"@)
    } else {
        None
    }
}

/// A line `MOUSE <direction> <button>`, the words in any ASCII case and
/// separated by single spaces, reads as the one step that presses or
/// releases that button: for instance `MOUSE DOWN LEFT` is a press of the
/// button `left`, and `mouse u lmb` its release.
pub proof fn lemma_mouse_command(m: Seq<char>, d: Seq<char>, w: Seq<char>)
    requires
        is_ascii_letters(m) && is_ascii_letters(d) && is_ascii_letters(w),
        upper_seq(m) == "MOUSE"@,
    ensures
        documented_direction(d) matches Some(down) ==> (documented_button(w) matches Some(b) ==> dsl_steps(
            m + seq![' '] + d + seq![' '] + w,
        ) == Ok::<Seq<StepView>, Seq<char>>(seq![if down { StepView::MouseDown(b) } else { StepView::MouseUp(b) }])),
{
    reveal_strlit("MOUSE");
    reveal_strlit("DELAY");
    reveal_strlit("D");
    reveal_strlit("WAIT");
    reveal_strlit("SLEEP");
    reveal_strlit("DOWN");
    reveal_strlit("UP");
    reveal_strlit("U");
    reveal_strlit("L");
    reveal_strlit("LEFT");
    reveal_strlit("LMB");
    reveal_strlit("LEFTBUTTON");
    reveal_strlit("R");
    reveal_strlit("RIGHT");
    reveal_strlit("RMB");
    reveal_strlit("RIGHTBUTTON");
    reveal_strlit("M");
    reveal_strlit("MIDDLE");
    reveal_strlit("MMB");
    reveal_strlit("MIDDLEBUTTON");
    reveal_strlit("//");
    if documented_direction(d) is Some && documented_button(w) is Some {
        let text = m + seq![' '] + d + seq![' '] + w;
        assert(upper_seq(m).len() == m.len());
        assert(upper_seq(d).len() == d.len());
        assert(upper_seq(w).len() == w.len());
        assert(m.len() == 5);
        assert(d.len() > 0 && w.len() > 0);
        lemma_words_three(m, d, w);
        assert(text[0] == m[0]);
        assert(text.last() == w[w.len() - 1]);
        lemma_trim_plain(text);
        assert(text[0] != '#' && text[0] != '/');
        assert forall|k: int| 0 <= k < text.len() implies text[k] != '\n' by {
            if k < m.len() {
                assert(text[k] == m[k]);
            } else if k == m.len() {
            } else if k < m.len() + 1 + d.len() {
                assert(text[k] == d[k - m.len() - 1]);
            } else if k == m.len() + 1 + d.len() {
            } else {
                assert(text[k] == w[k - m.len() - 2 - d.len()]);
            }
        }
        lemma_split_none(text, '\n');
        let one = seq![text];
        assert(one.drop_last() == Seq::<Seq<char>>::empty());
        assert(dsl_fold(Seq::<Seq<char>>::empty()) == Ok::<Seq<StepView>, Seq<char>>(Seq::empty()));
        assert(one.last() == text);
        let toks = seq![m, d, w];
        assert(toks.drop_first() == seq![d, w]);
        assert(dir_of(d) == documented_direction(d));
        assert(mouse_button_of(w) matches Ok(b) && Some(b) == documented_button(w));
        let down = documented_direction(d)->0;
        let b = documented_button(w)->0;
        let step = button_step(down, b);
        assert(mouse_line(toks.drop_first()) == Ok::<(bool, Seq<char>), Seq<char>>((down, b)));
        assert(upper_seq(toks[0]) == "MOUSE"@);
        assert("MOUSE"@[0] == 'M' && "DELAY"@[0] == 'D' && "WAIT"@[0] == 'W' && "SLEEP"@[0] == 'S');
        assert("MOUSE"@ != "DELAY"@ && "MOUSE"@ != "WAIT"@ && "MOUSE"@ != "SLEEP"@ && "MOUSE"@ != "D"@);
        assert(dsl_command(toks, 0) == LineOutcome::Step(step));
        assert(trim(text) == text);
        assert("//"@[0] == '/');
        assert(!starts_with(text, "//"@));
        assert(words(text) == toks);
        assert(dsl_line(text, 0) == LineOutcome::Step(step));
        assert(split_on(text, '\n') == one);
        assert(dsl_fold(one) == Ok::<Seq<StepView>, Seq<char>>(Seq::<StepView>::empty().push(step)));
        assert(Seq::<StepView>::empty().push(step) == seq![step]);
    }
}

/// Inserting a blank or comment line into a text, between two lines, in
/// front or after the last line, changes neither whether the text parses
/// nor the steps it gives.
pub proof fn lemma_comment_line_inserted(p: Seq<char>, l: Seq<char>, q: Seq<char>)
    requires
        forall|k: int| 0 <= k < l.len() ==> l[k] != '\n',
        is_blank_or_comment(l),
    ensures
        (dsl_steps(p + seq!['\n'] + l + seq!['\n'] + q) is Ok) == (dsl_steps(p + seq!['\n'] + q) is Ok),
        dsl_steps(p + seq!['\n'] + q) is Ok ==> dsl_steps(p + seq!['\n'] + l + seq!['\n'] + q) == dsl_steps(p + seq!['\n'] + q),
        (dsl_steps(l + seq!['\n'] + q) is Ok) == (dsl_steps(q) is Ok),
        dsl_steps(q) is Ok ==> dsl_steps(l + seq!['\n'] + q) == dsl_steps(q),
        (dsl_steps(p + seq!['\n'] + l) is Ok) == (dsl_steps(p) is Ok),
        dsl_steps(p) is Ok ==> dsl_steps(p + seq!['\n'] + l) == dsl_steps(p),
{
    lemma_split_concat(p, l, '\n');
    lemma_split_none(l, '\n');
    assert(split_on(p, '\n') + seq![l] == split_on(p, '\n').insert(split_on(p, '\n').len() as int, l));
    lemma_fold_insert(split_on(p, '\n'), split_on(p, '\n').len() as int, l);
    let sp = split_on(p, '\n');
    let sq = split_on(q, '\n');
    lemma_split_none(l, '\n');
    lemma_split_concat(l, q, '\n');
    assert(split_on(l + seq!['\n'] + q, '\n') == sq.insert(0, l));
    lemma_fold_insert(sq, 0, l);
    lemma_split_concat(p, q, '\n');
    assert(p + seq!['\n'] + l + seq!['\n'] + q == p + seq!['\n'] + (l + seq!['\n'] + q));
    lemma_split_concat(p, l + seq!['\n'] + q, '\n');
    assert(sp + sq.insert(0, l) == (sp + sq).insert(sp.len() as int, l));
    lemma_fold_insert(sp + sq, sp.len() as int, l);
}

/// Reads the line DSL into macro steps.
pub fn parse_line_dsl(text: &str) -> (r: Result<Vec<MacroStep>, String>)
    ensures
        match dsl_steps(text@) {
            Ok(steps) => r matches Ok(v) && step_views(v@) == steps,
            Err(e) => r matches Err(m) && m@ == e,
        },
{
    let chars = chars_of(text);
    let lines = split_chars(&chars, '\n');
    let ghost ls = views(lines@);
    let mut steps: Vec<MacroStep> = Vec::new();
    let mut i: usize = 0;
    assert(ls.take(0) == Seq::<Seq<char>>::empty());
    assert(step_views(steps@) == Seq::<StepView>::empty());
    while i < lines.len()
        invariant
            i <= lines@.len(),
            ls == views(lines@),
            ls == split_on(text@, '\n'),
            dsl_fold(ls.take(i as int)) == Ok::<Seq<StepView>, Seq<char>>(step_views(steps@)),
        decreases lines@.len() - i,
    {
        assert(ls.take(i + 1).drop_last() == ls.take(i as int));
        assert(ls.take(i + 1).last() == lines@[i as int]@);
        let ghost before = steps@;
        match parse_dsl_line(&lines[i], i) {
            LineResult::Skip => {},
            LineResult::Step(st) => {
                steps.push(st);
                assert(step_views(steps@) == step_views(before).push(st@));
            },
            LineResult::Fail(e) => {
                proof {
                    lemma_dsl_fold_err(ls, i + 1);
                }
                return Err(e);
            },
        }
        i = i + 1;
    }
    assert(ls.take(lines@.len() as int) == ls);
    Ok(steps)
}


/// An `.amc` text: read as line DSL into a macro, or recognised as JSON (its
/// first non-blank character is `{`), which is handed back for
/// deserialisation together with the identifier and name to fall back on.
pub enum AmcText {
    Macro(MacroDefinition),
    Json { json: String, id_fallback: String, name_fallback: String },
}

pub open spec fn is_json_text(text: Seq<char>) -> bool {
    trim_start(text).len() > 0 && trim_start(text)[0] == '{'
}

pub open spec fn no_steps_text() -> Seq<char> {
    "amc: no steps found. Use JSON (same as app import) or line commands:\nDELAY 32 | MOUSE DOWN LEFT | MOUSE UP LEFT | KEY DOWN 0x46 | \u{2026} (see source amc_import.rs)"@
}

/// What reading an `.amc` text with file name `file_name` gives: JSON text
/// is handed back with the fallback identifier and name; line commands give
/// a macro whose identifier comes from the file's stem and whose name is the
/// file's name (the final path component, or the whole text when there is
/// none), or the first failure, or a failure when there is no step.
pub open spec fn amc_outcome(text: Seq<char>, file_name: Seq<char>, r: Result<AmcText, String>) -> bool {
    &&& is_json_text(text) ==> (r matches Ok(AmcText::Json { json, id_fallback, name_fallback })
        && json@ == trim_start(text)
        && (exists|n: Option<Seq<char>>| id_fallback@ == #[trigger] slug_for(n))
        && is_slug(id_fallback@)
        && (exists|n: Option<Seq<char>>| name_fallback@ == #[trigger] name_or(n, file_name))
        && (has_known_file_name(file_name) ==> id_fallback@ == slug(stem_of(file_component(file_name)))
            && name_fallback@ == file_component(file_name)))
    &&& !is_json_text(text) ==> match dsl_steps(text) {
        Err(e) => r matches Err(m) && m@ == e,
        Ok(steps) => if steps.len() == 0 {
            r matches Err(m) && m@ == no_steps_text()
        } else {
            r matches Ok(AmcText::Macro(m))
                && step_views(m.steps@) == steps
                && m.version == 1
                && (exists|n: Option<Seq<char>>| m.id@ == #[trigger] slug_for(n))
                && is_slug(m.id@)
                && (exists|n: Option<Seq<char>>| m.name@ == #[trigger] name_or(n, file_name))
                && (has_known_file_name(file_name) ==> m.id@ == slug(stem_of(file_component(file_name)))
                    && m.name@ == file_component(file_name))
        },
    }
}

/// Reads an `.amc` text; `file_name` gives the identifier and display name.
pub fn parse_amc_text(text: &str, file_name: &str) -> (r: Result<AmcText, String>)
    ensures
        amc_outcome(text@, file_name@, r),
{
    let stem_id = slug_from_file_stem(file_name);
    let disp = display_name_from_file(file_name);
    let t = trim_start_chars(&chars_of(text));
    if t.len() > 0 && t[0] == '{' {
        return Ok(AmcText::Json { json: string_of(&t), id_fallback: stem_id, name_fallback: disp });
    }
    let steps = parse_line_dsl(text)?;
    if steps.len() == 0 {
        return Err(string_lit(
            "amc: no steps found. Use JSON (same as app import) or line commands:\nDELAY 32 | MOUSE DOWN LEFT | MOUSE UP LEFT | KEY DOWN 0x46 | \u{2026} (see source amc_import.rs)",
        ));
    }
    Ok(AmcText::Macro(MacroDefinition { id: stem_id, name: disp, version: 1, steps }))
}

/// Parses file bytes into a macro (or its JSON text). `file_name` is used for
/// id / display name fallbacks.
pub fn parse_amc_bytes(bytes: &[u8], file_name: &str) -> (r: Result<AmcText, String>)
    ensures
        amc_text(bytes@) matches Err(e) ==> r matches Err(m) && m@ == e,
        amc_text(bytes@) matches Ok(t) ==> amc_outcome(t, file_name@, r),
{
    let text = decode_amc_bytes(bytes)?;
    parse_amc_text(text.as_str(), file_name)
}

/// Completes a macro deserialised from `.amc` JSON: a blank id or name takes
/// the fallback, and a macro without steps is refused.
pub fn finish_amc_json(parsed: Result<MacroDefinition, String>, id_fallback: String, name_fallback: String) -> (r: Result<MacroDefinition, String>)
    ensures
        parsed matches Err(e) ==> r matches Err(m) && m@ == "amc json: "@ + e@,
        parsed matches Ok(p) ==> (p.steps@.len() == 0 ==> (r matches Err(m) && m@ == "amc json: steps array is empty"@)),
        parsed matches Ok(p) ==> (p.steps@.len() > 0 ==> (r matches Ok(m)
            && m.id@ == (if trim(p.id@).len() == 0 { id_fallback@ } else { p.id@ })
            && m.name@ == (if trim(p.name@).len() == 0 { name_fallback@ } else { p.name@ })
            && m.version == p.version
            && m.steps == p.steps)),
{
    match parsed {
        Err(e) => {
            let mut m = string_lit("amc json: ");
            push_lit(&mut m, e.as_str());
            Err(m)
        },
        Ok(mut m) => {
            if trim_chars(&chars_of(m.id.as_str())).len() == 0 {
                m.id = id_fallback;
            }
            if trim_chars(&chars_of(m.name.as_str())).len() == 0 {
                m.name = name_fallback;
            }
            if m.steps.len() == 0 {
                return Err(string_lit("amc json: steps array is empty"));
            }
            Ok(m)
        },
    }
}

} // verus!
