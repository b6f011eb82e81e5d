//! The weapon icons and game logos bundled with the application, as `data:`
//! URLs, and their lookup.
use vstd::prelude::*;
use crate::types::opt_view;

verus! {

/// The bundled images: `(game, weapon, data URL)` for weapon icons and
/// `(game, data URL)` for game logos.
pub struct BundledIcons {
    pub weapons: Vec<(String, String, String)>,
    pub logos: Vec<(String, String)>,
}

impl BundledIcons {
    /// No bundled images.
    pub fn none() -> (r: Self)
        ensures
            r.weapons@ == Seq::<(String, String, String)>::empty(),
            r.logos@ == Seq::<(String, String)>::empty(),
    {
        BundledIcons { weapons: Vec::new(), logos: Vec::new() }
    }
}

/// The icon of the first entry for weapon `weapon` of game `game`.
pub open spec fn icon_lookup(table: Seq<(String, String, String)>, game: Seq<char>, weapon: Seq<char>) -> Option<Seq<char>>
    decreases table.len(),
{
    if table.len() == 0 {
        None
    } else if table[0].0@ == game && table[0].1@ == weapon {
        Some(table[0].2@)
    } else {
        icon_lookup(table.drop_first(), game, weapon)
    }
}

/// The logo of the first entry for game `game`.
pub open spec fn logo_lookup(table: Seq<(String, String)>, game: Seq<char>) -> Option<Seq<char>>
    decreases table.len(),
{
    if table.len() == 0 {
        None
    } else if table[0].0@ == game {
        Some(table[0].1@)
    } else {
        logo_lookup(table.drop_first(), game)
    }
}

/// The bundled icon of a weapon of a game.
pub fn weapon_icon_data_url(icons: &BundledIcons, game: &str, weapon_id: &str) -> (r: Option<String>)
    ensures
        opt_view(r) == icon_lookup(icons.weapons@, game@, weapon_id@),
{
    let t = &icons.weapons;
    let mut i: usize = 0;
    assert(t@.skip(0) == t@);
    while i < t.len()
        invariant
            i <= t@.len(),
            t@ == icons.weapons@,
            icon_lookup(t@, game@, weapon_id@) == icon_lookup(t@.skip(i as int), game@, weapon_id@),
        decreases t@.len() - i,
    {
        assert(t@.skip(i as int)[0] == t@[i as int]);
        assert(t@.skip(i as int).drop_first() == t@.skip(i + 1));
        if crate::text::str_eq(t[i].0.as_str(), game) && crate::text::str_eq(t[i].1.as_str(), weapon_id) {
            assert(icon_lookup(t@.skip(i as int), game@, weapon_id@) == Some(t@[i as int].2@));
            let r = crate::text::string_lit(t[i].2.as_str());
            return Some(r);
        }
        i = i + 1;
    }
    None
}

/// The bundled logo of a game.
pub fn game_logo_data_url(icons: &BundledIcons, game: &str) -> (r: Option<String>)
    ensures
        opt_view(r) == logo_lookup(icons.logos@, game@),
{
    let t = &icons.logos;
    let mut i: usize = 0;
    assert(t@.skip(0) == t@);
    while i < t.len()
        invariant
            i <= t@.len(),
            t@ == icons.logos@,
            logo_lookup(t@, game@) == logo_lookup(t@.skip(i as int), game@),
        decreases t@.len() - i,
    {
        assert(t@.skip(i as int)[0] == t@[i as int]);
        assert(t@.skip(i as int).drop_first() == t@.skip(i + 1));
        if crate::text::str_eq(t[i].0.as_str(), game) {
            assert(logo_lookup(t@.skip(i as int), game@) == Some(t@[i as int].1@));
            let r = crate::text::string_lit(t[i].1.as_str());
            return Some(r);
        }
        i = i + 1;
    }
    None
}

} // verus!
