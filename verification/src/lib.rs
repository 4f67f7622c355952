//! The decision logic of an autoscaler for Gitea Actions runners on Hetzner Cloud.
//!
//! Nothing in this crate talks to a network: the control loop is a state machine that names
//! the next call to make and is told how that call ended.

pub mod cloud_init;
pub mod config;
pub mod control_laws;
pub mod control_loop;
pub mod gitea;
pub mod hetzner;
pub mod iteration_laws;
pub mod k8s;
pub mod metrics;
pub mod node_laws;
pub mod node_manager;
pub mod reconcile;
pub mod reconcile_laws;
pub mod seqs;
pub mod service_laws;
pub mod text;
pub mod time;
