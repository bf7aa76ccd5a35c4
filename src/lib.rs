//! Discovery of live hosts on an IPv4 subnet by ARP, and tracking of the
//! hosts seen across repeated sweeps.

pub mod mac;
pub mod table;
pub mod frame;
pub mod sweep;
pub mod tracker;
pub mod state;
pub mod interface;
