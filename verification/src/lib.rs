//! A binding/state engine for form-like user interfaces.
//!
//! One mutable application value (a tree of records, optionals, lists and
//! scalar leaves) is owned by a [`root::Root`] session together with a shadow
//! state tree that tracks, per leaf, the text the user sees, an optional
//! initial snapshot, a validation message and a parse error.  Cloneable,
//! path-named [`binding::Binding`] handles address sub-values of the tree;
//! write access goes through [`modifier::Modifier`] handles, which keep model
//! and state in sync and stamp every observable change with a strictly
//! increasing generation.

pub mod binding;
pub mod field;
pub mod model;
pub mod modifier;
pub mod root;
pub mod state_model;
pub mod text;
