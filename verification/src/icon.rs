//! The icon glyphs, in the Unicode private-use area of the icon font.

use vstd::prelude::*;

verus! {

pub const PLUS: &'static str = "\u{E3D4}";

pub const FOLDER_OPEN: &'static str = "\u{E256}";

pub const REFRESH: &'static str = "\u{E094}";

pub const PENCIL: &'static str = "\u{E3B4}";

pub const RELOCATE: &'static str = "\u{E0A0}";

pub const COPY: &'static str = "\u{E1CA}";

pub const TRASH: &'static str = "\u{E4A6}";

pub const GEAR: &'static str = "\u{E270}";

pub const LIGHTNING: &'static str = "\u{E2DE}";

pub const LOCK: &'static str = "\u{E2FA}";

pub const LOCK_OPEN: &'static str = "\u{E300}";

pub const SEARCH: &'static str = "\u{E30C}";

pub const STAR: &'static str = "\u{E46A}";

pub const CARET_LEFT: &'static str = "\u{E138}";

pub const CARET_RIGHT: &'static str = "\u{E13A}";

pub const CARET_UP: &'static str = "\u{E13C}";

pub const CARET_DOWN: &'static str = "\u{E136}";

pub const IMAGE: &'static str = "\u{E2CC}";

pub const X: &'static str = "\u{E4F6}";

pub const ARROW_RIGHT: &'static str = "\u{E06C}";

pub const CHECK: &'static str = "\u{E182}";

} // verus!
