//! Network diagnosis: finds where on the way from this machine to the public
//! network a connection is slow, lossy or broken.

pub mod addr;
pub mod arp;
pub mod binary64;
pub mod cli;
pub mod diagnose;
pub mod dns;
pub mod env;
pub mod gui;
pub mod http;
pub mod icmp;
pub mod quality;
pub mod report;
pub mod rounding;
pub mod route;
pub mod runner;
pub mod text;
pub mod trace;
