//! A desktop for wlroots compositors: icons read from desktop files, text
//! drawn from cached glyphs, and a background layer surface.
use vstd::prelude::*;

pub mod desktop;
pub mod fonts;
pub mod paths;
pub mod session;
pub mod surface;
pub mod text;

pub use desktop::DesktopEntry;
pub use fonts::{find_font_path, GlyphRenderCache};

verus! {

} // verus!
