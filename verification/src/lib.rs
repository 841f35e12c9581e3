//! An in-memory key-value snippet store: a mapping from text keys to text
//! values with create / retrieve / update / delete operations, a line-oriented
//! loader that fills a store from the bytes of a `key:value` file, and a menu
//! layer that carries out one user command at a time.

pub mod loader;
pub mod menu;
pub mod store;
