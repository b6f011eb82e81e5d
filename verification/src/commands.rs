//! Edits of the configuration requested by the UI, their validation, and the
//! UI snapshot returned after each edit.
use vstd::prelude::*;
use crate::text::{string_lit, push_lit, str_eq, upper_text, to_uppercase, string_of, chars_of, trim, trim_chars};
use crate::types::settings_same;
use crate::fmt::{dec, hex, push_dec, push_hex};
use crate::types::{
    AppConfig, GameProfile, WeaponBinding, WeaponTemplate, HotkeySpec, ExecutionMode, MacroDefinition,
    MacroStep, UiMacroStep, UiMacroStepView, UiWeapon, UiWeaponView, UiGame, UiGameView, UiConfig,
    LoadResponse, ui_step_views, opt_view, macros_same, config_same, copy_opt_string, copy_macros,
};
use crate::embedded_icons::{BundledIcons, logo_lookup};
use crate::hotkey_util::{hotkey_of_label, parse_hotkey_label, hotkey_text, format_hotkey};

verus! {

/// The game and weapon a macro import assigns the macro to.
#[derive(Clone, Debug, PartialEq, Eq)]
pub struct AssignMacroPayload {
    pub game_id: String,
    pub weapon_id: String,
}

/// The (modifiers, vk) pair that an enabled binding with a hotkey claims.
pub open spec fn claimed_key(b: WeaponBinding) -> Option<(u32, u32)> {
    if b.enabled {
        match b.hotkey {
            Some(h) => Some((h.modifiers, h.vk)),
            None => None,
        }
    } else {
        None
    }
}

/// Scans bindings in order: the keys claimed so far, and the hotkey of the
/// first binding that claims a key already claimed.
pub open spec fn dup_scan(bs: Seq<WeaponBinding>) -> (Set<(u32, u32)>, Option<HotkeySpec>)
    decreases bs.len(),
{
    if bs.len() == 0 {
        (Set::empty(), None)
    } else {
        let (seen, found) = dup_scan(bs.drop_last());
        if found is Some {
            (seen, found)
        } else {
            let b = bs.last();
            if !b.enabled {
                (seen, None)
            } else {
                match b.hotkey {
                    None => (seen, None),
                    Some(h) => if seen.contains((h.modifiers, h.vk)) {
                        (seen, Some(h))
                    } else {
                        (seen.insert((h.modifiers, h.vk)), None)
                    },
                }
            }
        }
    }
}

pub open spec fn duplicate_text(h: HotkeySpec, game: Seq<char>) -> Seq<char> {
    "Duplicate hotkey ("@ + dec(h.modifiers as nat) + ", "@ + dec(h.vk as nat) + ") for game "@ + game
}

/// The outcome of validating the profiles in order: the first profile with a
/// duplicate hotkey decides the error.
pub open spec fn validation(gps: Seq<GameProfile>) -> Result<(), Seq<char>>
    decreases gps.len(),
{
    if gps.len() == 0 {
        Ok(())
    } else {
        match validation(gps.drop_last()) {
            Err(e) => Err(e),
            Ok(_) => match dup_scan(gps.last().bindings@).1 {
                Some(h) => Err(duplicate_text(h, gps.last().id@)),
                None => Ok(()),
            },
        }
    }
}

pub open spec fn unit_view(r: Result<(), String>) -> Result<(), Seq<char>> {
    match r {
        Ok(_) => Ok(()),
        Err(e) => Err(e@),
    }
}

fn contains_key(v: &Vec<(u32, u32)>, k: (u32, u32)) -> (r: bool)
    ensures
        r == v@.contains(k),
{
    let mut i: usize = 0;
    while i < v.len()
        invariant
            i <= v@.len(),
            forall|j: int| 0 <= j < i ==> v@[j] != k,
        decreases v@.len() - i,
    {
        if v[i].0 == k.0 && v[i].1 == k.1 {
            assert(v@[i as int] == k);
            return true;
        }
        i = i + 1;
    }
    false
}

fn scan_bindings(bs: &Vec<WeaponBinding>) -> (r: Option<HotkeySpec>)
    ensures
        r == dup_scan(bs@).1,
{
    let mut seen: Vec<(u32, u32)> = Vec::new();
    let mut i: usize = 0;
    assert(bs@.take(0) == Seq::<WeaponBinding>::empty());
    while i < bs.len()
        invariant
            i <= bs@.len(),
            dup_scan(bs@.take(i as int)).1 is None,
            forall|k: (u32, u32)| dup_scan(bs@.take(i as int)).0.contains(k) <==> seen@.contains(k),
        decreases bs@.len() - i,
    {
        assert(bs@.take(i + 1).drop_last() == bs@.take(i as int));
        assert(bs@.take(i + 1).last() == bs@[i as int]);
        let ghost prev = dup_scan(bs@.take(i as int));
        let ghost next = dup_scan(bs@.take(i + 1));
        let b = &bs[i];
        if b.enabled {
            if b.hotkey.is_none() {
                assert(next.0 == prev.0 && next.1 is None);
            }
            if let Some(h) = b.hotkey {
                let k = (h.modifiers, h.vk);
                if contains_key(&seen, k) {
                    proof {
                        lemma_dup_scan_found(bs@, i + 1);
                    }
                    return Some(h);
                }
                let ghost old_seen = seen@;
                seen.push(k);
                assert forall|x: (u32, u32)| seen@.contains(x) <==> (old_seen.contains(x) || x == k) by {
                    if x == k {
                        assert(seen@[seen@.len() - 1] == k);
                    }
                    if old_seen.contains(x) {
                        let j = choose|j: int| 0 <= j < old_seen.len() && old_seen[j] == x;
                        assert(seen@[j] == x);
                    }
                    if seen@.contains(x) {
                        let j = choose|j: int| 0 <= j < seen@.len() && seen@[j] == x;
                        if j < old_seen.len() {
                            assert(old_seen[j] == x);
                        }
                    }
                }
                assert(next.0 == prev.0.insert(k) && next.1 is None);
                assert forall|x: (u32, u32)| next.0.contains(x) <==> seen@.contains(x) by {
                    assert(prev.0.contains(x) <==> old_seen.contains(x));
                }
            }
        } else {
            assert(next.0 == prev.0 && next.1 is None);
        }
        i = i + 1;
    }
    assert(bs@.take(bs@.len() as int) == bs@);
    None
}

proof fn lemma_dup_scan_found(bs: Seq<WeaponBinding>, i: int)
    requires
        0 <= i <= bs.len(),
        dup_scan(bs.take(i)).1 is Some,
    ensures
        dup_scan(bs).1 == dup_scan(bs.take(i)).1,
    decreases bs.len() - i,
{
    if i < bs.len() {
        assert(bs.take(i + 1).drop_last() == bs.take(i));
        lemma_dup_scan_found(bs, i + 1);
    } else {
        assert(bs.take(i) == bs);
    }
}

proof fn lemma_validation_err(gps: Seq<GameProfile>, i: int)
    requires
        0 <= i <= gps.len(),
        validation(gps.take(i)) is Err,
    ensures
        validation(gps) == validation(gps.take(i)),
    decreases gps.len() - i,
{
    if i < gps.len() {
        assert(gps.take(i + 1).drop_last() == gps.take(i));
        lemma_validation_err(gps, i + 1);
    } else {
        assert(gps.take(i) == gps);
    }
}

/// Whether two enabled bindings of the list claim the same hotkey.
pub open spec fn has_duplicate_hotkey(bs: Seq<WeaponBinding>) -> bool {
    exists|i: int, j: int|
        0 <= i < j < bs.len() && (#[trigger] claimed_key(bs[i])) is Some && claimed_key(bs[i]) == #[trigger] claimed_key(bs[j])
}

/// Whether, within each game, no two enabled bindings claim the same hotkey.
pub open spec fn hotkeys_distinct(gps: Seq<GameProfile>) -> bool {
    forall|g: int| 0 <= g < gps.len() ==> !has_duplicate_hotkey(#[trigger] gps[g].bindings@)
}

proof fn lemma_dup_scan(bs: Seq<WeaponBinding>)
    ensures
        dup_scan(bs).1 is None <==> !has_duplicate_hotkey(bs),
        dup_scan(bs).1 is None ==> forall|k: (u32, u32)|
            dup_scan(bs).0.contains(k) <==> exists|i: int| 0 <= i < bs.len() && #[trigger] claimed_key(bs[i]) == Some(k),
    decreases bs.len(),
{
    if bs.len() > 0 {
        let init = bs.drop_last();
        let b = bs.last();
        lemma_dup_scan(init);
        let (seen, found) = dup_scan(init);
        if found is Some {
            let (i, j) = choose|i: int, j: int|
                0 <= i < j < init.len() && (#[trigger] claimed_key(init[i])) is Some && claimed_key(init[i]) == #[trigger] claimed_key(init[j]);
            assert(claimed_key(bs[i]) == claimed_key(init[i]));
            assert(claimed_key(bs[j]) == claimed_key(init[j]));
        } else {
            assert forall|i: int| 0 <= i < init.len() implies #[trigger] claimed_key(bs[i]) == claimed_key(init[i]) by {}
            assert(claimed_key(bs[bs.len() - 1]) == claimed_key(b));
            match claimed_key(b) {
                None => {
                    assert(dup_scan(bs) == (seen, None::<HotkeySpec>));
                    if has_duplicate_hotkey(bs) {
                        let (i, j) = choose|i: int, j: int|
                            0 <= i < j < bs.len() && (#[trigger] claimed_key(bs[i])) is Some && claimed_key(bs[i]) == #[trigger] claimed_key(bs[j]);
                        assert(j < init.len());
                        assert(claimed_key(init[i]) == claimed_key(bs[i]));
                        assert(claimed_key(init[j]) == claimed_key(bs[j]));
                    }
                    assert forall|k: (u32, u32)| dup_scan(bs).0.contains(k) <==>
                        exists|i: int| 0 <= i < bs.len() && #[trigger] claimed_key(bs[i]) == Some(k) by {
                        if exists|i: int| 0 <= i < bs.len() && #[trigger] claimed_key(bs[i]) == Some(k) {
                            let i = choose|i: int| 0 <= i < bs.len() && #[trigger] claimed_key(bs[i]) == Some(k);
                            assert(claimed_key(init[i]) == Some(k));
                        }
                        if seen.contains(k) {
                            let i = choose|i: int| 0 <= i < init.len() && #[trigger] claimed_key(init[i]) == Some(k);
                            assert(claimed_key(bs[i]) == Some(k));
                        }
                    }
                },
                Some(k0) => {
                    let h = b.hotkey.unwrap();
                    assert(k0 == (h.modifiers, h.vk));
                    if seen.contains(k0) {
                        let i = choose|i: int| 0 <= i < init.len() && #[trigger] claimed_key(init[i]) == Some(k0);
                        assert(claimed_key(bs[i]) == Some(k0));
                        assert(claimed_key(bs[bs.len() - 1]) == Some(k0));
                        assert(has_duplicate_hotkey(bs));
                    } else {
                        assert(dup_scan(bs) == (seen.insert(k0), None::<HotkeySpec>));
                        if has_duplicate_hotkey(bs) {
                            let (i, j) = choose|i: int, j: int|
                                0 <= i < j < bs.len() && (#[trigger] claimed_key(bs[i])) is Some && claimed_key(bs[i]) == #[trigger] claimed_key(bs[j]);
                            assert(claimed_key(init[i]) == claimed_key(bs[i]));
                            if j < init.len() {
                                assert(claimed_key(init[j]) == claimed_key(bs[j]));
                            } else {
                                assert(seen.contains(k0));
                            }
                        }
                        assert forall|k: (u32, u32)| dup_scan(bs).0.contains(k) <==>
                            exists|i: int| 0 <= i < bs.len() && #[trigger] claimed_key(bs[i]) == Some(k) by {
                            if exists|i: int| 0 <= i < bs.len() && #[trigger] claimed_key(bs[i]) == Some(k) {
                                let i = choose|i: int| 0 <= i < bs.len() && #[trigger] claimed_key(bs[i]) == Some(k);
                                if i < init.len() {
                                    assert(claimed_key(init[i]) == Some(k));
                                }
                            }
                            if seen.contains(k) {
                                let i = choose|i: int| 0 <= i < init.len() && #[trigger] claimed_key(init[i]) == Some(k);
                                assert(claimed_key(bs[i]) == Some(k));
                            }
                        }
                    }
                },
            }
        }
    }
}

/// Validation accepts a list of profiles exactly when, within each game, no
/// two enabled bindings claim the same hotkey.
pub proof fn lemma_validation_ok(gps: Seq<GameProfile>)
    ensures
        validation(gps) is Ok <==> hotkeys_distinct(gps),
    decreases gps.len(),
{
    if gps.len() > 0 {
        let init = gps.drop_last();
        lemma_validation_ok(init);
        lemma_dup_scan(gps.last().bindings@);
        assert forall|g: int| 0 <= g < init.len() implies #[trigger] init[g] == gps[g] by {}
        if hotkeys_distinct(gps) {
            assert(gps[gps.len() - 1] == gps.last());
            assert forall|g: int| 0 <= g < init.len() implies !has_duplicate_hotkey(#[trigger] init[g].bindings@) by {
                assert(init[g] == gps[g]);
            }
        }
        if validation(gps) is Ok {
            assert forall|g: int| 0 <= g < gps.len() implies !has_duplicate_hotkey(#[trigger] gps[g].bindings@) by {
                if g < init.len() {
                    assert(init[g] == gps[g]);
                }
            }
        }
    }
}

/// Checks that within each game no two enabled bindings share a hotkey.
pub fn validate_config(cfg: &AppConfig) -> (r: Result<(), String>)
    ensures
        unit_view(r) == validation(cfg.game_profiles@),
        r is Ok <==> hotkeys_distinct(cfg.game_profiles@),
{
    proof {
        lemma_validation_ok(cfg.game_profiles@);
    }
    let gps = &cfg.game_profiles;
    let mut g: usize = 0;
    assert(gps@ == cfg.game_profiles@);
    assert(gps@.take(0) == Seq::<GameProfile>::empty());
    while g < gps.len()
        invariant
            gps@ == cfg.game_profiles@,
            g <= gps@.len(),
            validation(gps@.take(g as int)) == Ok::<(), Seq<char>>(()),
        decreases gps@.len() - g,
    {
        assert(gps@.take(g + 1).drop_last() == gps@.take(g as int));
        assert(gps@.take(g + 1).last() == gps@[g as int]);
        if let Some(h) = scan_bindings(&gps[g].bindings) {
            let mut m = string_lit("Duplicate hotkey (");
            push_dec(&mut m, h.modifiers as u64);
            push_lit(&mut m, ", ");
            push_dec(&mut m, h.vk as u64);
            push_lit(&mut m, ") for game ");
            push_lit(&mut m, gps[g].id.as_str());
            assert(validation(gps@.take(g + 1)) == Err::<(), Seq<char>>(duplicate_text(h, gps@[g as int].id@)));
            assert(m@ == duplicate_text(h, gps@[g as int].id@));
            proof {
                lemma_validation_err(gps@, g + 1);
                lemma_validation_ok(gps@);
            }
            return Err(m);
        }
        g = g + 1;
    }
    assert(gps@.take(gps@.len() as int) == gps@);
    Ok(())
}


/// Index of the first profile with identifier `id`.
pub open spec fn find_game(gps: Seq<GameProfile>, id: Seq<char>) -> Option<int>
    decreases gps.len(),
{
    if gps.len() == 0 {
        None
    } else {
        match find_game(gps.drop_last(), id) {
            Some(i) => Some(i),
            None => if gps.last().id@ == id {
                Some(gps.len() - 1)
            } else {
                None
            },
        }
    }
}

/// Index of the first binding for weapon `id`.
pub open spec fn find_binding(bs: Seq<WeaponBinding>, id: Seq<char>) -> Option<int>
    decreases bs.len(),
{
    if bs.len() == 0 {
        None
    } else {
        match find_binding(bs.drop_last(), id) {
            Some(i) => Some(i),
            None => if bs.last().weapon_id@ == id {
                Some(bs.len() - 1)
            } else {
                None
            },
        }
    }
}

pub(crate) proof fn lemma_find_game(gps: Seq<GameProfile>, id: Seq<char>)
    ensures
        find_game(gps, id) matches Some(i) ==> 0 <= i < gps.len() && gps[i].id@ == id
            && forall|k: int| 0 <= k < i ==> gps[k].id@ != id,
        find_game(gps, id) is None ==> forall|k: int| 0 <= k < gps.len() ==> gps[k].id@ != id,
    decreases gps.len(),
{
    if gps.len() > 0 {
        let p = gps.drop_last();
        lemma_find_game(p, id);
        assert forall|k: int| 0 <= k < p.len() implies #[trigger] gps[k] == p[k] by {}
        assert(gps.last() == gps[gps.len() - 1]);
    }
}

pub(crate) proof fn lemma_find_binding(bs: Seq<WeaponBinding>, id: Seq<char>)
    ensures
        find_binding(bs, id) matches Some(i) ==> 0 <= i < bs.len() && bs[i].weapon_id@ == id
            && forall|k: int| 0 <= k < i ==> bs[k].weapon_id@ != id,
        find_binding(bs, id) is None ==> forall|k: int| 0 <= k < bs.len() ==> bs[k].weapon_id@ != id,
    decreases bs.len(),
{
    if bs.len() > 0 {
        let p = bs.drop_last();
        lemma_find_binding(p, id);
        assert forall|k: int| 0 <= k < p.len() implies #[trigger] bs[k] == p[k] by {}
        assert(bs.last() == bs[bs.len() - 1]);
    }
}

pub(crate) fn game_index(gps: &Vec<GameProfile>, id: &str) -> (r: Option<usize>)
    ensures
        r matches Some(i) ==> find_game(gps@, id@) == Some(i as int),
        r is None ==> find_game(gps@, id@) is None,
{
    let mut i: usize = 0;
    assert(gps@.take(0) == Seq::<GameProfile>::empty());
    while i < gps.len()
        invariant
            i <= gps@.len(),
            find_game(gps@.take(i as int), id@) is None,
        decreases gps@.len() - i,
    {
        assert(gps@.take(i + 1).drop_last() == gps@.take(i as int));
        if str_eq(gps[i].id.as_str(), id) {
            proof {
                lemma_find_game_prefix(gps@, i + 1, id@);
            }
            return Some(i);
        }
        i = i + 1;
    }
    assert(gps@.take(gps@.len() as int) == gps@);
    None
}

proof fn lemma_find_game_prefix(gps: Seq<GameProfile>, i: int, id: Seq<char>)
    requires
        0 <= i <= gps.len(),
        find_game(gps.take(i), id) is Some,
    ensures
        find_game(gps, id) == find_game(gps.take(i), id),
    decreases gps.len() - i,
{
    if i < gps.len() {
        assert(gps.take(i + 1).drop_last() == gps.take(i));
        lemma_find_game_prefix(gps, i + 1, id);
    } else {
        assert(gps.take(i) == gps);
    }
}

proof fn lemma_find_binding_prefix(bs: Seq<WeaponBinding>, i: int, id: Seq<char>)
    requires
        0 <= i <= bs.len(),
        find_binding(bs.take(i), id) is Some,
    ensures
        find_binding(bs, id) == find_binding(bs.take(i), id),
    decreases bs.len() - i,
{
    if i < bs.len() {
        assert(bs.take(i + 1).drop_last() == bs.take(i));
        lemma_find_binding_prefix(bs, i + 1, id);
    } else {
        assert(bs.take(i) == bs);
    }
}

pub(crate) fn binding_index(bs: &Vec<WeaponBinding>, id: &str) -> (r: Option<usize>)
    ensures
        r matches Some(i) ==> find_binding(bs@, id@) == Some(i as int),
        r is None ==> find_binding(bs@, id@) is None,
{
    let mut i: usize = 0;
    assert(bs@.take(0) == Seq::<WeaponBinding>::empty());
    while i < bs.len()
        invariant
            i <= bs@.len(),
            find_binding(bs@.take(i as int), id@) is None,
        decreases bs@.len() - i,
    {
        assert(bs@.take(i + 1).drop_last() == bs@.take(i as int));
        if str_eq(bs[i].weapon_id.as_str(), id) {
            proof {
                lemma_find_binding_prefix(bs@, i + 1, id@);
            }
            return Some(i);
        }
        i = i + 1;
    }
    assert(bs@.take(bs@.len() as int) == bs@);
    None
}

/// The (profile, binding) indices an edit addresses, or why there are none.
pub open spec fn locate(gps: Seq<GameProfile>, game_id: Seq<char>, weapon_id: Seq<char>) -> Result<(int, int), Seq<char>> {
    match find_game(gps, game_id) {
        None => Err("game not found"@),
        Some(gi) => match find_binding(gps[gi].bindings@, weapon_id) {
            None => Err("weapon not found"@),
            Some(bi) => Ok((gi, bi)),
        },
    }
}

/// `new` is `old` with binding `bi` of profile `gi` replaced by `b`.
pub open spec fn profile_binding_replaced(old: Seq<GameProfile>, new: Seq<GameProfile>, gi: int, bi: int, b: WeaponBinding) -> bool {
    &&& new.len() == old.len()
    &&& forall|k: int| 0 <= k < old.len() && k != gi ==> new[k] == old[k]
    &&& 0 <= gi < old.len()
    &&& new[gi].id == old[gi].id
    &&& new[gi].display_name == old[gi].display_name
    &&& new[gi].subtitle == old[gi].subtitle
    &&& new[gi].profile_label == old[gi].profile_label
    &&& new[gi].weapons@ == old[gi].weapons@
    &&& new[gi].bindings@ == old[gi].bindings@.update(bi, b)
}

/// `new` is `old` with binding `bi` of profile `gi` replaced by `b`, and
/// nothing else changed.
pub open spec fn binding_replaced(old: AppConfig, new: AppConfig, gi: int, bi: int, b: WeaponBinding) -> bool {
    &&& crate::types::settings_same(new, old)
    &&& new.macros@ == old.macros@
    &&& profile_binding_replaced(old.game_profiles@, new.game_profiles@, gi, bi, b)
}

fn locate_exec(cfg: &AppConfig, game_id: &str, weapon_id: &str) -> (r: Result<(usize, usize), String>)
    ensures
        match locate(cfg.game_profiles@, game_id@, weapon_id@) {
            Ok((gi, bi)) => (r matches Ok((a, b)) && a == gi && b == bi)
                && 0 <= gi < cfg.game_profiles@.len() && 0 <= bi < cfg.game_profiles@[gi].bindings@.len(),
            Err(e) => r matches Err(m) && m@ == e,
        },
{
    proof {
        lemma_find_game(cfg.game_profiles@, game_id@);
    }
    let gi = match game_index(&cfg.game_profiles, game_id) {
        Some(gi) => gi,
        None => { return Err(string_lit("game not found")); },
    };
    proof {
        lemma_find_binding(cfg.game_profiles@[gi as int].bindings@, weapon_id@);
    }
    let bs = &cfg.game_profiles[gi].bindings;
    assert(bs@ == cfg.game_profiles@[gi as int].bindings@);
    let bi = match binding_index(bs, weapon_id) {
        Some(bi) => bi,
        None => { return Err(string_lit("weapon not found")); },
    };
    Ok((gi, bi))
}

fn assign_hotkey(b: &mut WeaponBinding, hotkey: Option<HotkeySpec>, enabled: bool)
    ensures
        *final(b) == (WeaponBinding { hotkey, enabled, ..*old(b) }),
{
    b.hotkey = hotkey;
    b.enabled = enabled;
}

/// The binding after assigning it the hotkey `hk`: the hotkey is set and the
/// binding enabled.
pub open spec fn with_hotkey(b: WeaponBinding, hk: HotkeySpec) -> WeaponBinding {
    WeaponBinding { hotkey: Some(hk), enabled: true, ..b }
}

/// Assigns the hotkey named by `label` to a weapon of a game, then validates.
/// The edit stays applied even when the validation fails.
pub fn set_weapon_hotkey(cfg: &mut AppConfig, game_id: &str, weapon_id: &str, label: &str) -> (r: Result<(), String>)
    ensures
        r is Ok ==> hotkeys_distinct(final(cfg).game_profiles@),
        match hotkey_of_label(label@) {
            Err(e) => (r matches Err(m) && m@ == e) && *final(cfg) == *old(cfg),
            Ok(hk) => match locate(old(cfg).game_profiles@, game_id@, weapon_id@) {
                Err(e) => (r matches Err(m) && m@ == e) && *final(cfg) == *old(cfg),
                Ok((gi, bi)) => binding_replaced(*old(cfg), *final(cfg), gi, bi,
                        with_hotkey(old(cfg).game_profiles@[gi].bindings@[bi], hk))
                    && unit_view(r) == validation(final(cfg).game_profiles@),
            },
        },
{
    let hk = parse_hotkey_label(label)?;
    let (gi, bi) = locate_exec(cfg, game_id, weapon_id)?;
    assign_hotkey(&mut cfg.game_profiles[gi].bindings[bi], Some(hk), true);
    validate_config(cfg)
}

/// The binding after clearing its hotkey: no hotkey, disabled.
pub open spec fn without_hotkey(b: WeaponBinding) -> WeaponBinding {
    WeaponBinding { hotkey: None, enabled: false, ..b }
}

/// `new` is `old` after clearing the hotkey of weapon `weapon_id` of game
/// `game_id`; nothing changes when there is no such binding.
pub open spec fn hotkey_cleared(old: AppConfig, new: AppConfig, game_id: Seq<char>, weapon_id: Seq<char>) -> bool {
    match locate(old.game_profiles@, game_id, weapon_id) {
        Err(_) => new == old,
        Ok((gi, bi)) => binding_replaced(old, new, gi, bi, without_hotkey(old.game_profiles@[gi].bindings@[bi])),
    }
}

pub(crate) proof fn lemma_find_game_same_ids(a: Seq<GameProfile>, b: Seq<GameProfile>, id: Seq<char>)
    requires
        a.len() == b.len(),
        forall|k: int| 0 <= k < a.len() ==> (#[trigger] a[k]).id@ == b[k].id@,
    ensures
        find_game(a, id) == find_game(b, id),
    decreases a.len(),
{
    if a.len() > 0 {
        assert(a.last().id@ == b.last().id@) by {
            assert(a[a.len() - 1].id@ == b[b.len() - 1].id@);
        }
        assert forall|k: int| 0 <= k < a.drop_last().len() implies (#[trigger] a.drop_last()[k]).id@ == b.drop_last()[k].id@ by {
            assert(a[k].id@ == b[k].id@);
        }
        lemma_find_game_same_ids(a.drop_last(), b.drop_last(), id);
    }
}

proof fn lemma_find_binding_same_ids(a: Seq<WeaponBinding>, b: Seq<WeaponBinding>, id: Seq<char>)
    requires
        a.len() == b.len(),
        forall|k: int| 0 <= k < a.len() ==> (#[trigger] a[k]).weapon_id@ == b[k].weapon_id@,
    ensures
        find_binding(a, id) == find_binding(b, id),
    decreases a.len(),
{
    if a.len() > 0 {
        assert(a.last().weapon_id@ == b.last().weapon_id@) by {
            assert(a[a.len() - 1].weapon_id@ == b[b.len() - 1].weapon_id@);
        }
        assert forall|k: int| 0 <= k < a.drop_last().len() implies (#[trigger] a.drop_last()[k]).weapon_id@
            == b.drop_last()[k].weapon_id@ by {
            assert(a[k].weapon_id@ == b[k].weapon_id@);
        }
        lemma_find_binding_same_ids(a.drop_last(), b.drop_last(), id);
    }
}

/// Clearing a hotkey a second time changes nothing, and clearing keeps a
/// configuration whose hotkeys are distinct so.
pub proof fn lemma_clear_hotkey_twice(c0: AppConfig, c1: AppConfig, c2: AppConfig, game_id: Seq<char>, weapon_id: Seq<char>)
    requires
        hotkey_cleared(c0, c1, game_id, weapon_id),
        hotkey_cleared(c1, c2, game_id, weapon_id),
    ensures
        config_same(c2, c1),
        hotkeys_distinct(c0.game_profiles@) ==> hotkeys_distinct(c1.game_profiles@),
{
    lemma_find_game(c0.game_profiles@, game_id);
    match locate(c0.game_profiles@, game_id, weapon_id) {
        Err(_) => {},
        Ok((gi, bi)) => {
            let g0 = c0.game_profiles@;
            let g1 = c1.game_profiles@;
            lemma_find_binding(g0[gi].bindings@, weapon_id);
            assert forall|k: int| 0 <= k < g0.len() implies (#[trigger] g0[k]).id@ == g1[k].id@ by {}
            lemma_find_game_same_ids(g0, g1, game_id);
            let b0 = g0[gi].bindings@;
            let b1 = g1[gi].bindings@;
            assert forall|k: int| 0 <= k < b0.len() implies (#[trigger] b0[k]).weapon_id@ == b1[k].weapon_id@ by {
                if k == bi {
                    assert(b1[k] == without_hotkey(b0[bi]));
                } else {
                    assert(b1[k] == b0[k]);
                }
            }
            lemma_find_binding_same_ids(b0, b1, weapon_id);
            assert(locate(g1, game_id, weapon_id) == Ok::<(int, int), Seq<char>>((gi, bi)));
            assert(without_hotkey(b1[bi]) == b1[bi]);
            assert(b1.update(bi, b1[bi]) == b1);
            let g2 = c2.game_profiles@;
            assert forall|k: int| 0 <= k < g1.len() implies crate::types::profile_same(#[trigger] g2[k], g1[k]) by {}
            assert forall|k: int| 0 <= k < c1.macros@.len() implies crate::types::macro_same(
                #[trigger] c2.macros@[k],
                c1.macros@[k],
            ) by {}
            if hotkeys_distinct(g0) && !hotkeys_distinct(g1) {
                let g = choose|g: int| 0 <= g < g1.len() && has_duplicate_hotkey(#[trigger] g1[g].bindings@);
                let bs = g1[g].bindings@;
                let (i, j) = choose|i: int, j: int|
                    0 <= i < j < bs.len() && (#[trigger] claimed_key(bs[i])) is Some && claimed_key(bs[i]) == #[trigger] claimed_key(bs[j]);
                if g == gi {
                    assert(claimed_key(b1[bi]) is None);
                    assert(i != bi && j != bi);
                    assert(b1[i] == b0[i] && b1[j] == b0[j]);
                    assert(has_duplicate_hotkey(g0[g].bindings@));
                } else {
                    assert(g1[g] == g0[g]);
                    assert(has_duplicate_hotkey(g0[g].bindings@));
                }
            }
        },
    }
}

/// Removes the hotkey of a weapon of a game (disabling it), then validates.
pub fn clear_weapon_hotkey(cfg: &mut AppConfig, game_id: &str, weapon_id: &str) -> (r: Result<(), String>)
    ensures
        r is Ok ==> hotkeys_distinct(final(cfg).game_profiles@),
        hotkey_cleared(*old(cfg), *final(cfg), game_id@, weapon_id@),
        match locate(old(cfg).game_profiles@, game_id@, weapon_id@) {
            Err(e) => (r matches Err(m) && m@ == e) && *final(cfg) == *old(cfg),
            Ok((gi, bi)) => binding_replaced(*old(cfg), *final(cfg), gi, bi,
                    without_hotkey(old(cfg).game_profiles@[gi].bindings@[bi]))
                && unit_view(r) == validation(final(cfg).game_profiles@),
        },
{
    let (gi, bi) = locate_exec(cfg, game_id, weapon_id)?;
    assign_hotkey(&mut cfg.game_profiles[gi].bindings[bi], None, false);
    validate_config(cfg)
}

/// Sets the execution mode of a weapon of a game, then validates.
pub fn set_weapon_mode(cfg: &mut AppConfig, game_id: &str, weapon_id: &str, mode: ExecutionMode) -> (r: Result<(), String>)
    ensures
        r is Ok ==> hotkeys_distinct(final(cfg).game_profiles@),
        match locate(old(cfg).game_profiles@, game_id@, weapon_id@) {
            Err(e) => (r matches Err(m) && m@ == e) && *final(cfg) == *old(cfg),
            Ok((gi, bi)) => binding_replaced(*old(cfg), *final(cfg), gi, bi,
                    WeaponBinding { mode, ..old(cfg).game_profiles@[gi].bindings@[bi] })
                && unit_view(r) == validation(final(cfg).game_profiles@),
        },
{
    let (gi, bi) = locate_exec(cfg, game_id, weapon_id)?;
    cfg.game_profiles[gi].bindings[bi].mode = mode;
    validate_config(cfg)
}

/// Makes `game_id` the active game if a profile has that identifier, then validates.
pub fn set_active_game(cfg: &mut AppConfig, game_id: String) -> (r: Result<(), String>)
    ensures
        r is Ok ==> hotkeys_distinct(final(cfg).game_profiles@),
        find_game(old(cfg).game_profiles@, game_id@) is None ==> (r matches Err(m) && m@ == "game not found"@)
            && *final(cfg) == *old(cfg),
        find_game(old(cfg).game_profiles@, game_id@) is Some ==> *final(cfg) == (AppConfig { active_game: game_id, ..*old(cfg) })
            && unit_view(r) == validation(final(cfg).game_profiles@),
{
    if game_index(&cfg.game_profiles, game_id.as_str()).is_none() {
        return Err(string_lit("game not found"));
    }
    cfg.active_game = game_id;
    validate_config(cfg)
}

/// Switches all macros on or off, then validates.
pub fn set_master_enabled(cfg: &mut AppConfig, on: bool) -> (r: Result<(), String>)
    ensures
        r is Ok ==> hotkeys_distinct(final(cfg).game_profiles@),
        *final(cfg) == (AppConfig { master_enabled: on, ..*old(cfg) }),
        unit_view(r) == validation(final(cfg).game_profiles@),
{
    cfg.master_enabled = on;
    validate_config(cfg)
}

/// Replaces the configuration by `config` if it validates; otherwise leaves it.
pub fn save_config(cfg: &mut AppConfig, config: AppConfig) -> (r: Result<(), String>)
    ensures
        r is Ok ==> hotkeys_distinct(final(cfg).game_profiles@),
        unit_view(r) == validation(config.game_profiles@),
        r is Ok ==> *final(cfg) == config,
        r is Err ==> *final(cfg) == *old(cfg),
{
    validate_config(&config)?;
    *cfg = config;
    Ok(())
}


/// The macros other than those with identifier `id`, in order.
pub open spec fn without_id(ms: Seq<MacroDefinition>, id: Seq<char>) -> Seq<MacroDefinition>
    decreases ms.len(),
{
    if ms.len() == 0 {
        ms
    } else {
        let p = without_id(ms.drop_last(), id);
        if ms.last().id@ == id {
            p
        } else {
            p.push(ms.last())
        }
    }
}

/// The binding after a macro is assigned to it: the macro is set, the
/// binding enabled, and a binding without a hotkey gets MOUSE 4 (vk 0x05).
pub open spec fn with_macro(b: WeaponBinding, id: String) -> WeaponBinding {
    WeaponBinding {
        macro_id: Some(id),
        enabled: true,
        hotkey: if b.hotkey is None { Some(HotkeySpec { modifiers: 0, vk: 0x05 }) } else { b.hotkey },
        ..b
    }
}

fn assign_macro(b: &mut WeaponBinding, id: String)
    ensures
        *final(b) == with_macro(*old(b), id),
{
    b.macro_id = Some(id);
    b.enabled = true;
    if b.hotkey.is_none() {
        b.hotkey = Some(HotkeySpec { modifiers: 0, vk: 0x05 });
    }
}

fn remove_macros_with_id(ms: &mut Vec<MacroDefinition>, id: &str)
    ensures
        final(ms)@ == without_id(old(ms)@, id@),
{
    let ghost orig = ms@;
    let mut i: usize = 0;
    let ghost mut j: int = 0;
    assert(orig.take(0) == Seq::<MacroDefinition>::empty());
    assert(ms@.skip(0) == orig.skip(0));
    while i < ms.len()
        invariant
            i <= ms@.len(),
            0 <= j <= orig.len(),
            ms@.take(i as int) == without_id(orig.take(j as int), id@),
            ms@.skip(i as int) == orig.skip(j as int),
        decreases ms@.len() - i,
    {
        assert(ms@.skip(i as int).len() > 0);
        assert(j < orig.len());
        assert(orig.take(j + 1).drop_last() == orig.take(j as int));
        assert(ms@[i as int] == orig[j as int]) by {
            assert(ms@.skip(i as int)[0] == orig.skip(j as int)[0]);
        }
        if str_eq(ms[i].id.as_str(), id) {
            let ghost before = ms@;
            ms.remove(i);
            assert(ms@.take(i as int) == before.take(i as int));
            assert(ms@.skip(i as int) == before.skip(i + 1));
            assert(before.skip(i + 1) == before.skip(i as int).skip(1));
        } else {
            assert(ms@.take(i + 1) == ms@.take(i as int).push(ms@[i as int]));
            assert(ms@.skip(i + 1) == ms@.skip(i as int).skip(1));
            i = i + 1;
        }
        assert(orig.skip(j + 1) == orig.skip(j as int).skip(1));
        proof {
            j = j + 1;
        }
    }
    assert(ms@.skip(i as int) == Seq::<MacroDefinition>::empty());
    assert(j == orig.len());
    assert(orig.take(j as int) == orig);
    assert(ms@.take(i as int) == ms@);
}

/// Adds an imported macro, replacing any macro with the same identifier, and
/// optionally assigns it to a weapon of a game; then validates. Edits made
/// before a failure stay applied.
pub fn apply_imported_macro(cfg: &mut AppConfig, imported: MacroDefinition, assign: Option<AssignMacroPayload>) -> (r: Result<(), String>)
    ensures
        r is Ok ==> hotkeys_distinct(final(cfg).game_profiles@),
        imported.id@.len() == 0 ==> (r matches Err(m) && m@ == "macro id required"@) && *final(cfg) == *old(cfg),
        imported.id@.len() > 0 ==> {
            &&& crate::types::settings_same(*final(cfg), *old(cfg))
            &&& final(cfg).macros@ == without_id(old(cfg).macros@, imported.id@).push(imported)
            &&& match assign {
                None => final(cfg).game_profiles@ == old(cfg).game_profiles@
                    && unit_view(r) == validation(final(cfg).game_profiles@),
                Some(a) => match locate(old(cfg).game_profiles@, a.game_id@, a.weapon_id@) {
                    Err(e) => (r matches Err(m) && m@ == e) && final(cfg).game_profiles@ == old(cfg).game_profiles@,
                    Ok((gi, bi)) => profile_binding_replaced(old(cfg).game_profiles@, final(cfg).game_profiles@, gi, bi,
                            with_macro(old(cfg).game_profiles@[gi].bindings@[bi], imported.id))
                        && unit_view(r) == validation(final(cfg).game_profiles@),
                },
            }
        },
{
    if imported.id.as_str().is_empty() {
        return Err(string_lit("macro id required"));
    }
    let id = imported.id.clone();
    remove_macros_with_id(&mut cfg.macros, id.as_str());
    cfg.macros.push(imported);
    if let Some(a) = assign {
        let (gi, bi) = locate_exec(cfg, a.game_id.as_str(), a.weapon_id.as_str())?;
        assign_macro(&mut cfg.game_profiles[gi].bindings[bi], id);
    }
    validate_config(cfg)
}


/// Importing a macro leaves exactly one macro with its identifier, the
/// imported one, last; every other macro stays, in its order, and nothing
/// else is added.
pub proof fn lemma_import_replaces(ms: Seq<MacroDefinition>, m: MacroDefinition)
    ensures
        without_id(ms, m.id@).push(m).last() == m,
        forall|i: int| 0 <= i < without_id(ms, m.id@).len() ==>
            (#[trigger] without_id(ms, m.id@)[i]).id@ != m.id@ && ms.contains(without_id(ms, m.id@)[i]),
        forall|x: MacroDefinition| ms.contains(x) && x.id@ != m.id@ ==> #[trigger] without_id(ms, m.id@).contains(x),
    decreases ms.len(),
{
    if ms.len() > 0 {
        let init = ms.drop_last();
        lemma_import_replaces(init, m);
        let p = without_id(init, m.id@);
        let w = without_id(ms, m.id@);
        assert forall|i: int| 0 <= i < w.len() implies (#[trigger] w[i]).id@ != m.id@ && ms.contains(w[i]) by {
            if i < p.len() {
                assert(w[i] == p[i]);
                assert(p[i].id@ != m.id@);
                let k = choose|k: int| 0 <= k < init.len() && init[k] == p[i];
                assert(ms[k] == init[k]);
            } else {
                assert(w[i] == ms.last());
                assert(ms[ms.len() - 1] == ms.last());
            }
        }
        assert forall|x: MacroDefinition| ms.contains(x) && x.id@ != m.id@ implies #[trigger] w.contains(x) by {
            let k = choose|k: int| 0 <= k < ms.len() && ms[k] == x;
            if k < init.len() {
                assert(init[k] == x);
                assert(p.contains(x));
                let j = choose|j: int| 0 <= j < p.len() && p[j] == x;
                assert(w[j] == x);
            } else {
                assert(w[w.len() - 1] == x);
            }
        }
    }
}

/// The short code of a game shown in the UI.
pub open spec fn game_code_text(id: Seq<char>) -> Seq<char> {
    if id == "pubg"@ {
        "PUBG"@
    } else if id == "rust"@ {
        "RUST"@
    } else if id == "cs2"@ {
        "CS2"@
    } else {
        upper_text(id)
    }
}

fn game_code(id: &str) -> (r: String)
    ensures
        r@ == game_code_text(id@),
{
    if str_eq(id, "pubg") {
        string_lit("PUBG")
    } else if str_eq(id, "rust") {
        string_lit("RUST")
    } else if str_eq(id, "cs2") {
        string_lit("CS2")
    } else {
        to_uppercase(id)
    }
}

pub open spec fn sat_add(a: u64, b: u64) -> u64 {
    if a + b > u64::MAX {
        u64::MAX
    } else {
        (a + b) as u64
    }
}

pub open spec fn preview_row(t: u64, kind: Seq<char>, action: Seq<char>, value: Seq<char>) -> UiMacroStepView {
    UiMacroStepView { t, kind, action, value }
}

/// The timeline of a macro: one row per step except relative mouse moves,
/// each at the sum (saturating) of the delays before it.
pub open spec fn preview_state(steps: Seq<MacroStep>) -> (u64, Seq<UiMacroStepView>)
    decreases steps.len(),
{
    if steps.len() == 0 {
        (0, Seq::empty())
    } else {
        let (t, rows) = preview_state(steps.drop_last());
        match steps.last() {
            MacroStep::Delay { ms } => (
                sat_add(t, ms),
                rows.push(preview_row(t, "delay"@, "WAIT"@, dec(ms as nat) + "ms"@)),
            ),
            MacroStep::MouseDown { button } => (t, rows.push(preview_row(t, "mouse"@, "DOWN"@, upper_text(button@)))),
            MacroStep::MouseUp { button } => (t, rows.push(preview_row(t, "mouse"@, "UP"@, upper_text(button@)))),
            MacroStep::KeyDown { vk } => (t, rows.push(preview_row(t, "key"@, "DOWN"@, "VK_"@ + hex(vk as nat)))),
            MacroStep::KeyUp { vk } => (t, rows.push(preview_row(t, "key"@, "UP"@, "VK_"@ + hex(vk as nat)))),
            MacroStep::MouseMoveRel { .. } => (t, rows),
        }
    }
}

pub open spec fn preview_rows(steps: Seq<MacroStep>) -> Seq<UiMacroStepView> {
    preview_state(steps).1
}

fn row(t: u64, kind: &str, action: &str, value: String) -> (r: UiMacroStep)
    ensures
        r@ == preview_row(t, kind@, action@, value@),
{
    UiMacroStep { t, kind: string_lit(kind), action: string_lit(action), value }
}

/// The timeline preview of a macro.
pub fn macro_preview(m: &MacroDefinition) -> (r: Vec<UiMacroStep>)
    ensures
        ui_step_views(r@) == preview_rows(m.steps@),
{
    let steps = &m.steps;
    let mut t: u64 = 0;
    let mut out: Vec<UiMacroStep> = Vec::new();
    let mut i: usize = 0;
    assert(steps@.take(0) == Seq::<MacroStep>::empty());
    assert(ui_step_views(out@) == Seq::<UiMacroStepView>::empty());
    while i < steps.len()
        invariant
            i <= steps@.len(),
            (t, ui_step_views(out@)) == preview_state(steps@.take(i as int)),
        decreases steps@.len() - i,
    {
        assert(steps@.take(i + 1).drop_last() == steps@.take(i as int));
        assert(steps@.take(i + 1).last() == steps@[i as int]);
        let ghost before = ui_step_views(out@);
        match &steps[i] {
            MacroStep::Delay { ms } => {
                let mut v = String::new();
                push_dec(&mut v, *ms);
                push_lit(&mut v, "ms");
                let r = row(t, "delay", "WAIT", v);
                out.push(r);
                assert(ui_step_views(out@) == before.push(r@));
                t = t.saturating_add(*ms);
            },
            MacroStep::MouseDown { button } => {
                let r = row(t, "mouse", "DOWN", to_uppercase(button.as_str()));
                out.push(r);
                assert(ui_step_views(out@) == before.push(r@));
            },
            MacroStep::MouseUp { button } => {
                let r = row(t, "mouse", "UP", to_uppercase(button.as_str()));
                out.push(r);
                assert(ui_step_views(out@) == before.push(r@));
            },
            MacroStep::KeyDown { vk } => {
                let mut v = string_lit("VK_");
                push_hex(&mut v, *vk as u64);
                let r = row(t, "key", "DOWN", v);
                out.push(r);
                assert(ui_step_views(out@) == before.push(r@));
            },
            MacroStep::KeyUp { vk } => {
                let mut v = string_lit("VK_");
                push_hex(&mut v, *vk as u64);
                let r = row(t, "key", "UP", v);
                out.push(r);
                assert(ui_step_views(out@) == before.push(r@));
            },
            MacroStep::MouseMoveRel { .. } => {},
        }
        i = i + 1;
    }
    assert(steps@.take(steps@.len() as int) == steps@);
    out
}


/// Index of the first macro with identifier `id`.
pub open spec fn find_macro(ms: Seq<MacroDefinition>, id: Seq<char>) -> Option<int>
    decreases ms.len(),
{
    if ms.len() == 0 {
        None
    } else {
        match find_macro(ms.drop_last(), id) {
            Some(i) => Some(i),
            None => if ms.last().id@ == id {
                Some(ms.len() - 1)
            } else {
                None
            },
        }
    }
}

pub(crate) proof fn lemma_find_macro_bounds(ms: Seq<MacroDefinition>, id: Seq<char>)
    ensures
        find_macro(ms, id) matches Some(i) ==> 0 <= i < ms.len(),
    decreases ms.len(),
{
    if ms.len() > 0 {
        lemma_find_macro_bounds(ms.drop_last(), id);
    }
}

proof fn lemma_find_macro_prefix(ms: Seq<MacroDefinition>, i: int, id: Seq<char>)
    requires
        0 <= i <= ms.len(),
        find_macro(ms.take(i), id) is Some,
    ensures
        find_macro(ms, id) == find_macro(ms.take(i), id),
    decreases ms.len() - i,
{
    if i < ms.len() {
        assert(ms.take(i + 1).drop_last() == ms.take(i));
        lemma_find_macro_prefix(ms, i + 1, id);
    } else {
        assert(ms.take(i) == ms);
    }
}

pub(crate) fn macro_index(ms: &Vec<MacroDefinition>, id: &str) -> (r: Option<usize>)
    ensures
        r matches Some(i) ==> find_macro(ms@, id@) == Some(i as int),
        r is None ==> find_macro(ms@, id@) is None,
{
    let mut i: usize = 0;
    assert(ms@.take(0) == Seq::<MacroDefinition>::empty());
    while i < ms.len()
        invariant
            i <= ms@.len(),
            find_macro(ms@.take(i as int), id@) is None,
        decreases ms@.len() - i,
    {
        assert(ms@.take(i + 1).drop_last() == ms@.take(i as int));
        if str_eq(ms[i].id.as_str(), id) {
            proof {
                lemma_find_macro_prefix(ms@, i + 1, id@);
            }
            return Some(i);
        }
        i = i + 1;
    }
    assert(ms@.take(ms@.len() as int) == ms@);
    None
}

/// How the UI shows a weapon, given the profile's bindings and the macros:
/// the first binding for the weapon supplies hotkey, mode and macro.
pub open spec fn ui_weapon_of(macros: Seq<MacroDefinition>, bs: Seq<WeaponBinding>, w: WeaponTemplate, armed: bool) -> UiWeaponView {
    let bi = find_binding(bs, w.id@);
    UiWeaponView {
        id: w.id@,
        name: w.name@,
        class: w.class@,
        caliber: w.caliber@,
        rpm: w.rpm,
        recoil_bits: w.recoil_bits,
        bound: match bi {
            Some(i) => bs[i].enabled && bs[i].hotkey is Some,
            None => false,
        },
        armed,
        hotkey: match bi {
            Some(i) => match bs[i].hotkey {
                Some(h) => hotkey_text(h),
                None => "\u{2014}"@,
            },
            None => "\u{2014}"@,
        },
        mode: match bi {
            Some(i) => bs[i].mode,
            None => ExecutionMode::Hold,
        },
        macro_id: match bi {
            Some(i) => opt_view(bs[i].macro_id),
            None => None,
        },
        macro_preview: match bi {
            Some(i) => match bs[i].macro_id {
                Some(mid) => match find_macro(macros, mid@) {
                    Some(k) => Some(preview_rows(macros[k].steps@)),
                    None => None,
                },
                None => None,
            },
            None => None,
        },
        icon_url: opt_view(w.icon_url),
    }
}

/// How the UI shows a game profile, with the bundled logos `logos` and the
/// weapon `armed` shown as armed.
pub open spec fn ui_game_of(macros: Seq<MacroDefinition>, gp: GameProfile, logos: Seq<(String, String)>, armed: Option<Seq<char>>) -> UiGameView {
    UiGameView {
        id: gp.id@,
        code: game_code_text(gp.id@),
        name: gp.display_name@,
        sub: gp.subtitle@,
        profile: gp.profile_label@,
        logo_url: logo_lookup(logos, gp.id@),
        weapons: Seq::new(
            gp.weapons@.len(),
            |i: int| ui_weapon_of(macros, gp.bindings@, gp.weapons@[i], armed == Some(gp.weapons@[i].id@)),
        ),
    }
}

/// The weapon shown as armed in a profile: the armed weapon, in the active
/// game only.
pub open spec fn armed_in(cfg: AppConfig, gp: GameProfile, armed: Option<Seq<char>>) -> Option<Seq<char>> {
    if gp.id@ == cfg.active_game@ {
        armed
    } else {
        None
    }
}

fn ui_weapon(macros: &Vec<MacroDefinition>, bs: &Vec<WeaponBinding>, w: &WeaponTemplate, armed: bool) -> (r: UiWeapon)
    ensures
        r@ == ui_weapon_of(macros@, bs@, *w, armed),
{
    proof {
        lemma_find_binding(bs@, w.id@);
    }
    let dash = "\u{2014}";
    let (hotkey, bound, mode, macro_id, preview) = match binding_index(bs, w.id.as_str()) {
        None => (string_lit(dash), false, ExecutionMode::Hold, None, None),
        Some(bi) => {
            let b = &bs[bi];
            let hotkey = match &b.hotkey {
                Some(h) => format_hotkey(h),
                None => string_lit(dash),
            };
            let preview = match &b.macro_id {
                None => None,
                Some(mid) => {
                    proof {
                        lemma_find_macro_bounds(macros@, mid@);
                    }
                    match macro_index(macros, mid.as_str()) {
                        Some(k) => Some(macro_preview(&macros[k])),
                        None => None,
                    }
                },
            };
            (hotkey, b.enabled && b.hotkey.is_some(), b.mode, copy_opt_string(&b.macro_id), preview)
        },
    };
    UiWeapon {
        id: w.id.clone(),
        name: w.name.clone(),
        class: w.class.clone(),
        caliber: w.caliber.clone(),
        rpm: w.rpm,
        recoil_bits: w.recoil_bits,
        bound,
        armed,
        hotkey,
        mode,
        macro_id,
        macro_preview: preview,
        icon_url: copy_opt_string(&w.icon_url),
    }
}

fn ui_game(macros: &Vec<MacroDefinition>, gp: &GameProfile, icons: &BundledIcons, armed: &Option<String>) -> (r: UiGame)
    ensures
        r@ == ui_game_of(macros@, *gp, icons.logos@, opt_view(*armed)),
{
    let mut weapons: Vec<UiWeapon> = Vec::new();
    let mut i: usize = 0;
    while i < gp.weapons.len()
        invariant
            i <= gp.weapons@.len(),
            weapons@.len() == i,
            forall|k: int| 0 <= k < i ==> #[trigger] weapons@[k]@ == ui_weapon_of(
                macros@,
                gp.bindings@,
                gp.weapons@[k],
                opt_view(*armed) == Some(gp.weapons@[k].id@),
            ),
        decreases gp.weapons@.len() - i,
    {
        let is_armed = match armed {
            Some(a) => str_eq(a.as_str(), gp.weapons[i].id.as_str()),
            None => false,
        };
        let w = ui_weapon(macros, &gp.bindings, &gp.weapons[i], is_armed);
        weapons.push(w);
        i = i + 1;
    }
    let r = UiGame {
        id: gp.id.clone(),
        code: game_code(gp.id.as_str()),
        name: gp.display_name.clone(),
        sub: gp.subtitle.clone(),
        profile: gp.profile_label.clone(),
        logo_url: crate::embedded_icons::game_logo_data_url(icons, gp.id.as_str()),
        weapons,
    };
    assert(r@.weapons == ui_game_of(macros@, *gp, icons.logos@, opt_view(*armed)).weapons);
    r
}

/// The UI rendering of a configuration, with the bundled logos of `icons`
/// and the weapon `armed` armed.
pub fn build_ui(cfg: &AppConfig, icons: &BundledIcons, armed: &Option<String>) -> (r: UiConfig)
    ensures
        r.master_enabled == cfg.master_enabled,
        r.active_game == cfg.active_game,
        r.fire_button_vk == cfg.fire_button_vk,
        r.fire_button_label@ == hotkey_text(HotkeySpec { modifiers: 0, vk: cfg.fire_button_vk }),
        r.armed_weapon_id == *armed,
        r.jitter_ms == cfg.jitter_ms,
        r.games@.len() == cfg.game_profiles@.len(),
        forall|i: int| 0 <= i < r.games@.len() ==> #[trigger] r.games@[i]@ == ui_game_of(
            cfg.macros@,
            cfg.game_profiles@[i],
            icons.logos@,
            armed_in(*cfg, cfg.game_profiles@[i], opt_view(*armed)),
        ),
        macros_same(r.macros@, cfg.macros@),
{
    let mut games: Vec<UiGame> = Vec::new();
    let mut i: usize = 0;
    let none: Option<String> = None;
    while i < cfg.game_profiles.len()
        invariant
            i <= cfg.game_profiles@.len(),
            games@.len() == i,
            none is None,
            forall|k: int| 0 <= k < i ==> #[trigger] games@[k]@ == ui_game_of(
                cfg.macros@,
                cfg.game_profiles@[k],
                icons.logos@,
                armed_in(*cfg, cfg.game_profiles@[k], opt_view(*armed)),
            ),
        decreases cfg.game_profiles@.len() - i,
    {
        let gp = &cfg.game_profiles[i];
        let g = if str_eq(gp.id.as_str(), cfg.active_game.as_str()) {
            ui_game(&cfg.macros, gp, icons, armed)
        } else {
            ui_game(&cfg.macros, gp, icons, &none)
        };
        games.push(g);
        i = i + 1;
    }
    UiConfig {
        master_enabled: cfg.master_enabled,
        active_game: cfg.active_game.clone(),
        fire_button_vk: cfg.fire_button_vk,
        fire_button_label: format_hotkey(&HotkeySpec { modifiers: 0, vk: cfg.fire_button_vk }),
        armed_weapon_id: copy_opt_string(armed),
        jitter_ms: cfg.jitter_ms,
        games,
        macros: copy_macros(&cfg.macros),
    }
}

/// The configuration together with its UI rendering.
pub fn load_response(cfg: &AppConfig, icons: &BundledIcons, armed: &Option<String>) -> (r: LoadResponse)
    ensures
        config_same(r.config, *cfg),
        r.ui.master_enabled == cfg.master_enabled,
        r.ui.active_game == cfg.active_game,
        r.ui.fire_button_vk == cfg.fire_button_vk,
        r.ui.fire_button_label@ == hotkey_text(HotkeySpec { modifiers: 0, vk: cfg.fire_button_vk }),
        r.ui.armed_weapon_id == *armed,
        r.ui.jitter_ms == cfg.jitter_ms,
        r.ui.games@.len() == cfg.game_profiles@.len(),
        forall|i: int| 0 <= i < r.ui.games@.len() ==> #[trigger] r.ui.games@[i]@ == ui_game_of(
            cfg.macros@,
            cfg.game_profiles@[i],
            icons.logos@,
            armed_in(*cfg, cfg.game_profiles@[i], opt_view(*armed)),
        ),
        macros_same(r.ui.macros@, cfg.macros@),
{
    LoadResponse { ui: build_ui(cfg, icons, armed), config: cfg.duplicate() }
}


/// Why a base64 payload does not decode (`base64::DecodeError`).
#[derive(Clone, Copy, Debug, PartialEq, Eq, Structural)]
pub enum Base64Error {
    /// An invalid byte at the given offset.
    InvalidByte(usize, u8),
    /// The number of symbols is invalid.
    InvalidLength(usize),
    /// The last symbol at the given offset has nonzero trailing bits.
    InvalidLastSymbol(usize, u8),
    /// The padding is missing or wrong.
    InvalidPadding,
}

/// What the standard base64 engine makes of a text: the decoded bytes or the
/// reason it refuses.
pub uninterp spec fn base64_standard_decoded(input: Seq<char>) -> Result<Seq<u8>, Base64Error>;

/// `base64::engine::general_purpose::STANDARD.decode`: its outcome is
/// [`base64_standard_decoded`] of the input.
#[verifier::external_body]
fn base64_decode(input: &str) -> (r: Result<Vec<u8>, Base64Error>)
    ensures
        match base64_standard_decoded(input@) {
            Ok(b) => r matches Ok(v) && v@ == b,
            Err(e) => r == Err::<Vec<u8>, Base64Error>(e),
        },
{
    match base64::Engine::decode(&base64::engine::general_purpose::STANDARD, input) {
        Ok(v) => Ok(v),
        Err(base64::DecodeError::InvalidByte(i, b)) => Err(Base64Error::InvalidByte(i, b)),
        Err(base64::DecodeError::InvalidLength(n)) => Err(Base64Error::InvalidLength(n)),
        Err(base64::DecodeError::InvalidLastSymbol(i, b)) => Err(Base64Error::InvalidLastSymbol(i, b)),
        Err(base64::DecodeError::InvalidPadding) => Err(Base64Error::InvalidPadding),
    }
}

/// The message of a base64 failure (`DecodeError`'s `Display`).
pub open spec fn base64_error_text(e: Base64Error) -> Seq<char> {
    match e {
        Base64Error::InvalidByte(i, b) => "Invalid symbol "@ + dec(b as nat) + ", offset "@ + dec(i as nat) + "."@,
        Base64Error::InvalidLength(n) => "Invalid input length: "@ + dec(n as nat),
        Base64Error::InvalidLastSymbol(i, b) => "Invalid last symbol "@ + dec(b as nat) + ", offset "@ + dec(i as nat) + "."@,
        Base64Error::InvalidPadding => "Invalid padding"@,
    }
}

/// Renders a base64 failure.
pub fn base64_error_message(e: Base64Error) -> (r: String)
    ensures
        r@ == base64_error_text(e),
{
    match e {
        Base64Error::InvalidByte(i, b) => {
            let mut m = string_lit("Invalid symbol ");
            push_dec(&mut m, b as u64);
            push_lit(&mut m, ", offset ");
            push_dec(&mut m, i as u64);
            push_lit(&mut m, ".");
            m
        },
        Base64Error::InvalidLength(n) => {
            let mut m = string_lit("Invalid input length: ");
            push_dec(&mut m, n as u64);
            m
        },
        Base64Error::InvalidLastSymbol(i, b) => {
            let mut m = string_lit("Invalid last symbol ");
            push_dec(&mut m, b as u64);
            push_lit(&mut m, ", offset ");
            push_dec(&mut m, i as u64);
            push_lit(&mut m, ".");
            m
        },
        Base64Error::InvalidPadding => string_lit("Invalid padding"),
    }
}

/// The outcome of decoding an `.amc` upload, given what the base64 engine
/// made of the trimmed payload.
pub open spec fn payload_outcome(decoded: Result<Seq<u8>, Base64Error>) -> Result<Seq<u8>, Seq<char>> {
    match decoded {
        Ok(b) => Ok(b),
        Err(e) => Err("invalid base64: "@ + base64_error_text(e)),
    }
}

/// The bytes of an `.amc` upload, given what the base64 engine made of it.
pub fn payload_from_decoded(decoded: Result<Vec<u8>, Base64Error>) -> (r: Result<Vec<u8>, String>)
    ensures
        match decoded {
            Ok(v) => r matches Ok(w) && w@ == v@,
            Err(e) => r matches Err(m) && m@ == "invalid base64: "@ + base64_error_text(e),
        },
{
    match decoded {
        Ok(v) => Ok(v),
        Err(e) => {
            let mut m = string_lit("invalid base64: ");
            push_lit(&mut m, base64_error_message(e).as_str());
            Err(m)
        },
    }
}

/// Decodes the base64 payload of an `.amc` upload (surrounding whitespace ignored).
pub fn decode_macro_payload(content_base64: &str) -> (r: Result<Vec<u8>, String>)
    ensures
        match payload_outcome(base64_standard_decoded(trim(content_base64@))) {
            Ok(b) => r matches Ok(v) && v@ == b,
            Err(e) => r matches Err(m) && m@ == e,
        },
{
    let trimmed = string_of(&trim_chars(&chars_of(content_base64)));
    payload_from_decoded(base64_decode(trimmed.as_str()))
}

} // verus!
