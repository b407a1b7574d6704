//! What operations are for, stated of their results alone.

pub mod algebra;
pub mod averages;
pub mod bands;
pub mod decisions;
pub mod distributions;
pub mod features;
pub mod filtering;
pub mod flow;
pub mod lossy;
pub mod loudness;
pub mod motion;
pub mod opinion;
pub mod pictures;
pub mod pitch;
pub mod quality;
pub mod rollouts;
pub mod scores;
pub mod segments;
pub mod spectra;
pub mod speculation;
pub mod streams;
