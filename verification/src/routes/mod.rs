pub mod issue_common;
pub mod project;
pub mod module;
pub mod page;
pub mod prefs;
pub mod search;
pub mod service;
pub mod state;
pub mod subscribe;
pub mod themes;
pub mod userprops;
pub mod notification;
pub mod reactions;
pub mod user;
pub mod s3proxy;
