//! The colours of the interface, as `0xRRGGBB` values.
use vstd::prelude::*;

use crate::config::ThemeMode;

verus! {

/// The colours of the interface.
#[derive(Debug, Clone, Copy, PartialEq, Eq, Structural)]
pub struct Theme {
    pub bg_window: u32,
    pub bg_surface: u32,
    pub bg_column: u32,
    pub bg_tab_bar: u32,
    pub text_primary: u32,
    pub text_secondary: u32,
    pub border: u32,
    pub selection: u32,
    pub accent: u32,
}

/// Whether a mode shows the dark colours (`System` follows the system).
pub open spec fn is_dark(mode: ThemeMode, system_is_dark: bool) -> bool {
    match mode {
        ThemeMode::Light => false,
        ThemeMode::Dark => true,
        ThemeMode::System => system_is_dark,
    }
}

/// The dark colours.
pub open spec fn dark_theme() -> Theme {
    Theme {
        bg_window: 0x1e1e1e,
        bg_surface: 0x252526,
        bg_column: 0x2d2d2d,
        bg_tab_bar: 0x181818,
        text_primary: 0xe0e0e0,
        text_secondary: 0x9e9e9e,
        border: 0x383838,
        selection: 0x0a84ff,
        accent: 0x4488ff,
    }
}

/// The light colours.
pub open spec fn light_theme() -> Theme {
    Theme {
        bg_window: 0xf5f5f5,
        bg_surface: 0xffffff,
        bg_column: 0xeceff1,
        bg_tab_bar: 0xe0e0e0,
        text_primary: 0x212121,
        text_secondary: 0x757575,
        border: 0xd0d0d0,
        selection: 0x2196f3,
        accent: 0x007aff,
    }
}

impl Theme {
    /// The colours for a mode, given whether the system shows dark colours.
    pub fn resolve(mode: ThemeMode, system_is_dark: bool) -> (r: Theme)
        ensures
            r == (if is_dark(mode, system_is_dark) {
                dark_theme()
            } else {
                light_theme()
            }),
    {
        let dark = match mode {
            ThemeMode::Light => false,
            ThemeMode::Dark => true,
            ThemeMode::System => system_is_dark,
        };
        if dark {
            Theme {
                bg_window: 0x1e1e1e,
                bg_surface: 0x252526,
                bg_column: 0x2d2d2d,
                bg_tab_bar: 0x181818,
                text_primary: 0xe0e0e0,
                text_secondary: 0x9e9e9e,
                border: 0x383838,
                selection: 0x0a84ff,
                accent: 0x4488ff,
            }
        } else {
            Theme {
                bg_window: 0xf5f5f5,
                bg_surface: 0xffffff,
                bg_column: 0xeceff1,
                bg_tab_bar: 0xe0e0e0,
                text_primary: 0x212121,
                text_secondary: 0x757575,
                border: 0xd0d0d0,
                selection: 0x2196f3,
                accent: 0x007aff,
            }
        }
    }
}

} // verus!
