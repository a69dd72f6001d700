//! Core of a package manager for an editor's plugins: the package tree and its hash,
//! the git loader's locator rules, the resolver, the generation store and its file
//! format, and the installer's decisions.
pub mod cli;
pub mod codec;
pub mod installer;
pub mod manifest;
pub mod package;
pub mod resolver;
pub mod smith;
pub mod store;
pub mod text;
