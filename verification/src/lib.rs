//! tfpin: lint Terraform files against the versions and conventions that a `.tfpin.toml`
//! declares.
//!
//! The parsed Terraform source is held in the model of `syntax`, the configuration in that of
//! `config`; the rules live in `checks`, one module per rule, and `lint` turns a file into the
//! lines that the command prints.

pub mod syntax;
pub mod value;
pub mod text;
pub mod hcl_nav;
pub mod config;
pub mod checks;
pub mod paths;
pub mod lint;
pub mod laws;
pub mod check_laws;
