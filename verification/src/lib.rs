//! Kiwami: the verified core of the desktop's command-line tool.

pub mod text;
pub mod order;
pub mod doctor;
pub mod json;
pub mod nixtext;
pub mod layout;
pub mod install;
pub mod flow;
pub mod host;
pub mod wallpaper;
pub mod update;
pub mod persist;
