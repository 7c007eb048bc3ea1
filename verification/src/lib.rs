//! Substances carrying quantities of intent, and the rules by which those
//! intents react, split and flow between substances.

pub mod intent;
pub mod model;
pub mod alchemy;
pub mod laws;
pub mod plant;
