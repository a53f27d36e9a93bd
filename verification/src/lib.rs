//! Planning of Kubernetes-style lab networks (a bridge, node namespaces and
//! pod namespaces joined by veth pairs) as shell command plans.

pub mod text;
pub mod error;
pub mod plan;
pub mod net;
pub mod bootstrap;
pub mod model;
pub mod topology;
pub mod support;
pub mod laws;
pub mod parse;
pub mod cli;
pub mod commands;
pub mod facility;
pub mod store;
pub mod status;
pub mod requests;
pub mod smoke;
pub mod ids;
