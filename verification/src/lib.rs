//! Subnet calculator core: address model, CIDR bit arithmetic, parsing,
//! containment predicates, address enumeration, supernet merging, reserved
//! range lookup and the template formatter.

pub mod chars;
pub mod cidr;
pub mod contain;
pub mod enumerate;
pub mod iface;
pub mod input;
pub mod ip;
pub mod lookup;
pub mod merge;
pub mod parse;
pub mod render;
pub mod template;

pub use cidr::broadcast;
pub use cidr::network;
pub use cidr::network_size;
pub use cidr::subnet;
pub use cidr::subnets_in_network;
pub use cidr::wildcard;
pub use contain::within;
pub use contain::withoverlap;
pub use contain::without;
pub use enumerate::addresses;
pub use enumerate::AddressIter;
pub use iface::matching_network_interface;
pub use iface::NetInterface;
pub use input::find_ips;
pub use ip::Addr;
pub use ip::FormatMode;
pub use ip::FormatProcessor;
pub use ip::Ip;
pub use ip::Reverse;
pub use lookup::network_reservation;
pub use merge::smallest_group_network;
pub use merge::smallest_group_network_limited;
pub use parse::parse_address_mask;
pub use parse::parse_mask;
pub use parse::parse_v4;
pub use parse::parse_v4_v6;
pub use parse::parse_v6;
pub use render::address_text;
pub use render::formatted_address;
pub use render::rbl_format;
pub use template::format_details;
pub use template::NetRow;
