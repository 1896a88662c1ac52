//! Verified core of the Desklings desktop companion: the animation
//! condition language, configuration compilation, cursor arbitration,
//! instance bookkeeping, settings and hit masks.
pub mod text;
pub mod condition;
pub mod compiled;
pub mod error;
pub mod schema;
pub mod compile;
pub mod arbiter;
pub mod instances;
pub mod ordered_map;
pub mod settings;
pub mod selection;
pub mod hitmask;
pub mod loader;
pub mod reload;
pub mod pointer;
pub mod deskling;
pub mod startup;
pub mod natural;
