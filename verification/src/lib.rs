//! Charge that moves between an ambient field, the poles of lightning rods and
//! a collector.

pub mod atmosphere;
pub mod chance;
pub mod electrically_charged;
pub mod lightningrod;
pub mod limits;
pub mod prelude;
pub mod static_charge;
