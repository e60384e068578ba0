use vstd::prelude::*;

pub mod acme;
pub mod agent;
pub mod bgp;
pub mod cli;
pub mod codec;
pub mod config;
pub mod controller;
pub mod dashboard;
pub mod daemon;
pub mod device;
pub mod lb;
pub mod mesh;
pub mod metrics;
pub mod net;
pub mod proxy;
pub mod reload;
pub mod signals;
pub mod text;
pub mod tls;

verus! {

} // verus!
