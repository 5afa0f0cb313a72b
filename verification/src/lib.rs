pub mod blocked_items;
pub mod canvas;
pub mod confession;
pub mod fingerprint;
pub mod consts;
pub mod glow;
pub mod input;
pub mod reply;
pub mod session;
pub mod statusline;
pub mod text;
pub mod web;
