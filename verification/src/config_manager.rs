//! Reconciliation of a configuration loaded from storage.
use vstd::prelude::*;
use crate::types::AppConfig;
use crate::embedded_icons::BundledIcons;
use crate::profile_manager::{
    default_config_with, is_default_config_with, apply_weapon_icons_from, sync_weapons_from, icons_applied,
    config_synced, any_icon_change, any_sync_drop,
};

verus! {

/// Brings a loaded configuration in line with the built-in profiles: applies
/// the bundled weapon icons `icons`, then drops and reorders weapons as the built-in
/// profiles have them. Returns whether the result should be stored again.
pub fn refresh_with_defaults(cfg: &mut AppConfig, icons: &BundledIcons) -> (need_save: bool)
    ensures
        exists|d: AppConfig, mid: AppConfig| #![trigger is_default_config_with(d, icons.weapons@), icons_applied(*old(cfg), mid, d.game_profiles@)]
            is_default_config_with(d, icons.weapons@)
            && icons_applied(*old(cfg), mid, d.game_profiles@)
            && config_synced(mid, *final(cfg), d.game_profiles@)
            && need_save == (any_icon_change(old(cfg).game_profiles@, d.game_profiles@)
                || any_sync_drop(mid.game_profiles@, d.game_profiles@)),
{
    let d = default_config_with(icons);
    let mut need_save = apply_weapon_icons_from(cfg, &d);
    let ghost mid = *cfg;
    if sync_weapons_from(cfg, &d) {
        need_save = true;
    }
    need_save
}

} // verus!
