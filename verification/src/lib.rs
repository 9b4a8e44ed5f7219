//! State, routing and lifecycle rules of the Spine task-tree card.

pub mod agent_laws;
pub mod agents;
pub mod ancestry;
pub mod ancestry_laws;
pub mod attach;
pub mod barrier;
pub mod card;
pub mod clock;
pub mod commands;
pub mod desktop;
pub mod events;
pub mod history;
pub mod host_laws;
pub mod invariants;
pub mod keyed;
pub mod laws;
pub mod lifecycle;
pub mod lineage;
pub mod lineage_laws;
pub mod listener;
pub mod listener_laws;
pub mod live;
pub mod live_laws;
pub mod mcp;
pub mod names;
pub mod payload_laws;
pub mod propagation_laws;
pub mod protocol;
pub mod recovery;
pub mod render;
pub mod request_laws;
pub mod resource;
pub mod resume_laws;
pub mod retained;
pub mod retained_laws;
pub mod route_laws;
pub mod routes;
pub mod snapshot;
pub mod snapshot_laws;
pub mod spawn;
pub mod state;
pub mod steps;
pub mod subscription_laws;
pub mod subscriptions;
pub mod subtree_laws;
pub mod text;
pub mod thread_laws;
pub mod turns;
pub mod unloading;
pub mod unloading_laws;
