pub mod funcs;
pub mod laws;
pub mod pattern;
pub mod store;
pub mod style;
pub mod text;

pub use pattern::search;
pub use store::add_alias;
pub use store::edit_alias;
pub use store::get_aliases;
pub use store::remove_alias;
pub use store::run;
pub use store::show_aliases;
pub use store::AliasError;
pub use store::Args;
pub use store::FileUpdate;
pub use store::OpReport;
pub use store::Operation;
