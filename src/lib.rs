//! Composable SQL fragments: text pieces joined with a separator, trimmed of
//! a leading and a trailing keyword, framed by a literal prefix and suffix,
//! with bound values kept in placeholder order.
pub mod text;
pub mod placeholder;
pub mod trim;
pub mod builder;
pub mod laws;

pub use builder::{IBuilder, SqlBuilder};
pub use builder::SqlBuilder as B;
pub use placeholder::{sql_placeholder_transfer, PlaceholderMode};
pub use trim::{pre_trim, sql_trim, sql_trim_string, suf_trim};
