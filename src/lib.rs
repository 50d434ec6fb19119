// An interaction engine for a terminal git client: unified-diff hunks and
// the patches made from them, screens of selectable items, the stack of
// screens, key bindings with submenus, and the commands that operations run.

pub mod bytes;
pub mod diff;
pub mod engine;
pub mod items;
pub mod keybinds;
pub mod process;
pub mod screen;
