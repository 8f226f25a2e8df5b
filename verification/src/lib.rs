//! The verified core of niri-groom: arranging niri's snapshot into the map,
//! the keyboard rules of the overlay, mouse drops, the auto-show debounce, the
//! rename line editor, the option parser, the config and badge readers, and
//! the niri requests the overlay sends.

pub mod text;
pub mod autoshow;
pub mod niri;
pub mod model;
pub mod snapshot;
pub mod edit;
pub mod theme;
pub mod badges;
pub mod config;
pub mod opts;
pub mod overlay;
pub mod drag;
