//! Infection and disease progression.

pub mod mixing;
pub mod status;

pub use mixing::MixingStrategy;
pub use mixing::Uniform;
pub use status::construct_disease_status_array;
pub use status::DiseaseStatus;
pub use status::State;
