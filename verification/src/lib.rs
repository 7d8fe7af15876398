use vstd::prelude::*;

pub mod align;
pub mod board;
pub mod file_filter;
pub mod files_view;
pub mod filter_expr;
pub mod filter_ui;
pub mod grooming_plan;
pub mod grooming_view;
pub mod help_content;
pub mod hexdiff;
pub mod icon;
pub mod id3tags;
pub mod imgedit;
pub mod lightbox;
pub mod lists;
pub mod locks;
pub mod media_cell;
pub mod menu_entry;
pub mod naming;
pub mod notes;
pub mod order;
pub mod player;
pub mod recent;
pub mod repo_chip;
pub mod review;
pub mod row_keys;
pub mod run_result;
pub mod settings;
pub mod status;
pub mod sync_view;
pub mod text;
pub mod textdiff;
pub mod theme;

verus! {

/// Whether the X11 backend should be forced: both displays are offered and the
/// user did not opt to keep Wayland.
pub fn force_x11(wayland: bool, x11: bool, keep_wayland: bool) -> (r: bool)
    ensures
        r == (wayland && x11 && !keep_wayland),
{
    wayland && x11 && !keep_wayland
}

} // verus!
