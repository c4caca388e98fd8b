//! A TCP/IPv4 stack: Ethernet frames, ARP, IPv4 packets, TCP segments and connections, and a small
//! HTTP application on top.
//!
//! Everything here is computation on plain values. Reading frames from a device, writing them back
//! and waiting for time to pass is up to the program around it.
pub mod arp;
pub mod chaos;
pub mod clock;
pub mod device;
pub mod error;
pub mod ethernet;
pub mod formats;
pub mod http;
pub mod inbound;
pub mod ipv4;
pub mod pcap;
pub mod tcp;
pub mod text;
pub mod wire;
