//! Validation and generation of Bluetooth Low Energy access addresses, and
//! classification of device addresses.

pub mod access_address;
pub mod bits;
pub mod device_address;
pub mod generator;

pub use access_address::{is_valid_access_addr, ActiveAddressSet, ADV_ACCESS_ADDR};
pub use bits::{max_consecutive_bits, ones_count, transition_count};
pub use device_address::{Addr, AddrKind};
pub use generator::{generate, judge_candidate, EntropySource, GenerationError, Step};
