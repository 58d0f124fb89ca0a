//! Decoding and bookkeeping rules of the samplers. The system queries
//! themselves live with the application.

pub mod cpu;
pub mod disk;
pub mod fan;
pub mod memory;
pub mod process;
pub mod soc;
pub mod sys;
pub mod thermal;
pub mod topology;
pub mod zones;
