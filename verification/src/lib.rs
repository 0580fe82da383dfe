pub mod text;
pub mod ids;
pub mod log;
pub mod files;
pub mod bookmarks;
pub mod jj;
pub mod env;
pub mod keybinds;
pub mod commander;
pub mod version;
pub mod search;
pub mod style;
pub mod highlight;
pub mod tabs;
pub mod dialogs;
pub mod bookmarks_tab;
pub mod files_tab;
pub mod log_tab;
