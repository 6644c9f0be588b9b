//! A grid of central fill facilities: collision-free random placement of
//! facilities over the cells of a bounded grid, and nearest-neighbour queries
//! ranked by Manhattan distance.

pub mod config;
pub mod facility;
pub mod laws;
pub mod medication;
pub mod prompt;
pub mod random;
pub mod rank_queue;

pub use config::{default_k, default_world_xy, Config};
pub use facility::{Facility, FacilityMap, GenerateError, Neighbor};
pub use medication::{sample_medication, MedicationType, MEDICATION_TYPES};
pub use prompt::{InputError, PromptConfig, DEFAULT_FACILITY_COUNT};
