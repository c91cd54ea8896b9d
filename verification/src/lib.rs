//! A verified "Solution Explorer" for C#/.NET: the tree that leads from the solutions of a worktree
//! to their projects, and from there to dependencies and source files, together with the settings
//! and the provider registry of the panel that shows it.
//!
//! - [`parse`] reads solution files, project files and assembly definitions;
//! - [`worktree`] lists directories and searches for solutions;
//! - [`tree`] gives the roots of the tree and the children of each container, with the nodes built
//!   in [`nodes`] and [`items`] and identified as [`node_id`] says;
//! - [`provider`] and [`extension`] hold the nodes that the panel and extensions exchange, and the
//!   registry of those who supply them;
//! - [`settings`] resolves the panel's settings;
//! - [`paths`], [`text`], [`order`] and [`decimal`] are what these are made of;
//! - [`xml`] and [`json`] are the contracts of the readers of those formats.
//!
//! Contracts speak of views: a string is the sequence of its characters, and each type of the
//! library has a view made of such values. Public proof functions state the laws that relate
//! several functions.

pub mod decimal;
pub mod extension;
pub mod items;
pub mod json;
pub mod node_id;
pub mod nodes;
pub mod order;
pub mod parse;
pub mod paths;
pub mod provider;
pub mod settings;
pub mod text;
pub mod tree;
pub mod worktree;
pub mod xml;
