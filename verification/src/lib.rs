//! Pinyin completion for text editors: incremental document synchronisation
//! and the tiered dictionary lookup that turns the letters before the cursor
//! into ranked candidates.

pub mod completion;
pub mod index;
pub mod pinyin;
pub mod resolver;
pub mod session;
pub mod store;
pub mod text;
pub mod types;
