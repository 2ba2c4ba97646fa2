//! Verified core logic of a multi-platform messaging runtime: admin
//! provisioning validation, pack inspection, flow routing and the
//! decisions of its command line tools.
pub mod text;
pub mod admin;
pub mod admin_api;
pub mod strmap;
pub mod packs;
pub mod test_cli;
pub mod platform;
pub mod json;
pub mod subscriptions;
pub mod validator;
pub mod e2e;
pub mod conformance;
pub mod runner;
pub mod oauth;
pub mod bus;
pub mod dev_cli;
pub mod qa;
pub mod fixtures;
