//! Verified core of a distraction-free writing application: paragraph and
//! sentence navigation, undo history, spelling-issue bookkeeping, command-bar
//! filtering and the small rules behind the editor's interface.

pub mod text;
pub mod undo;
pub mod center;
pub mod strings;
pub mod latex;
pub mod kind;
pub mod spell;
pub mod paths;
pub mod config;
pub mod selection;
pub mod commands;
pub mod overlays;
pub mod sidebar;
pub mod theme;
pub mod document;
pub mod workspace;
pub mod editing;
pub mod keymap;
pub mod status;
pub mod steps;
