use vstd::prelude::*;

pub mod dialog;
pub mod dialog_visual;
pub mod flipbook_options;
pub mod flipbook_textures;
pub mod hierarchy;
pub mod seekbar;
pub mod text;

verus! {
} // verus!
