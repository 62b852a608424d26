use vstd::prelude::*;

pub mod text;
pub mod ipv4;
pub mod textmap;
pub mod neighbors;
pub mod dhcp;
pub mod wol;
pub mod portscan;
pub mod ping;
pub mod identity;
pub mod dns;
pub mod model;
pub mod records;
pub mod interfaces;
pub mod oui;
pub mod scan;

verus! {

} // verus!
