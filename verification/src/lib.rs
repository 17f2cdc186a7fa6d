//! Verified core of the overseerd application framework's planning, tooling and routing logic.

pub mod text;
pub mod scope;
pub mod contribution;
pub mod client;
pub mod json_ws;
pub mod route;
pub mod resource_ids;
pub mod failure;
pub mod output;
pub mod http_responses;
pub mod wire;
pub mod labels;
pub mod projection;
pub mod composition;
pub mod dependencies;
pub mod providers;
pub mod application;
pub mod document;
pub mod inference;
pub mod plan;
pub mod target;
pub mod handlers;
