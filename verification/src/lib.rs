//! FloatNote's core: where notes and settings are kept, how a new note's
//! file is named, which note opens on start and which file a save writes,
//! global shortcuts written as text, and the window commands of the tray
//! menu and the shortcut.

pub mod text;
pub mod filename;
pub mod shortcut;
pub mod settings;
pub mod paths;
pub mod notes;
pub mod window;
