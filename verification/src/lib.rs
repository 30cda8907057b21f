//! Plot recording and chart layout for an evolution strategy run.
//!
//! A [`Plot`](plot::Plot) records one data point after another while the algorithm runs and
//! turns the recorded histories into four charts. Real numbers are held as the bit patterns of
//! IEEE 754 doubles (see [`Value`](value::Value)), so that recording, clearing, ordering and
//! layout are all verified. Arithmetic on doubles is done by the caller, who hands its results
//! in.
pub mod chart;
pub mod chart_laws;
pub mod data;
pub mod integer;
pub mod label;
pub mod laws;
pub mod layout;
pub mod order;
pub mod palette;
pub mod plot;
pub mod points;
pub mod range;
pub mod record_laws;
pub mod value;
pub mod value_laws;
