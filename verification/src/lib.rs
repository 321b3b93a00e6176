//! A verified smart-house registry: a house owns named rooms, each room a set
//! of device names, and a report generator walks every (room, device) pair
//! through a caller-supplied device-info provider.

pub mod borrowing_house;
pub mod decimal;
pub mod house;
pub mod owning_house;
