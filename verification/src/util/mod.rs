pub mod text;
pub mod path;
pub mod layout;
pub mod arena;
