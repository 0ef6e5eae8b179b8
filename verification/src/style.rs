//! Terminal styling and the fixed layout of the keybinds popup.
use vstd::prelude::*;

verus! {

pub const RESET: &'static str = "\x1b[0m";
pub const BOLD: &'static str = "\x1b[1m";
pub const CYAN: &'static str = "\x1b[36m";
pub const DIM: &'static str = "\x1b[2m";
pub const BG_CYAN: &'static str = "\x1b[46m";
pub const BG_GREY: &'static str = "\x1b[100m";
pub const BG_GREEN: &'static str = "\x1b[42m";
pub const FG_BLACK: &'static str = "\x1b[30m";
pub const RED: &'static str = "\x1b[31m";
pub const BG_RED: &'static str = "\x1b[41m";
/// Standard white plus bold instead of bright-white (97) alone: the latter can
/// collapse to the normal foreground in remote/limited-color PTYs.
pub const FG_WHITE: &'static str = "\x1b[1;37m";
pub const DEFAULT_PROFILE: &'static str = "default";
pub const KEY_COL: usize = 30;
pub const LEFT_PAD: &'static str = "  ";
pub const PAGE_STEP: usize = 10;
pub const TABS_ROW: u16 = 1;
pub const FOOTER_SEP: &'static str = " \u{b7} ";

} // verus!
