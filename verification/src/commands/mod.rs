//! Commands of the user interface: what each of them decides.
pub mod lark_auth;
pub mod settings;
