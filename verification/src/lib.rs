//! Connector toolkits: reading an account one page at a time.
//!
//! A *provider* turns an account into pages of records. It runs nothing by
//! itself: it says which action to run, and takes the reply. What it reads,
//! in which order, and what it makes of each reply is proved here; running
//! actions and storing state is the host's part.
//!
//! - [`toolkits`]: the toolkits, and the Slack provider with its laws.
//! - [`pipeline`]: what toolkits share when they read payloads and count pages.
//! - [`json`], [`table`], [`records`], [`provider`], [`scope`], [`error`]: the
//!   values that pass between a provider and its host.
//! - [`text`], [`decimal`], [`clock`]: texts, numbers in writing, and time.

pub mod clock;
pub mod decimal;
pub mod error;
pub mod json;
pub mod pipeline;
pub mod provider;
pub mod records;
pub mod scope;
pub mod table;
pub mod text;
pub mod toolkits;
