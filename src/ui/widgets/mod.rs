pub mod button;
pub mod clock;
pub mod menu;
pub mod pattern_editor;
pub mod rulers;
