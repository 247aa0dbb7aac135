//! The names that most callers need.

pub use crate::atmosphere::Atmosphere;
pub use crate::atmosphere::ThunderboltCatcher;
pub use crate::atmosphere::ThunderboltThrower;
pub use crate::electrically_charged::ElectricallyCharged;
pub use crate::lightningrod::LightningRod;
