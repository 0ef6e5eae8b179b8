use vstd::prelude::*;

pub mod text;
pub mod toml_doc;
pub mod keybinds_data;
pub mod keys;
pub mod panel;
pub mod conflicts;
pub mod filter;
pub mod style;
pub mod footer;
pub mod tabs;
pub mod render;
pub mod key_input;
pub mod view_state;
pub mod view_session;
pub mod dispatch;
pub mod frame;
pub mod profiles;
pub mod undo_file;

verus! {

} // verus!
