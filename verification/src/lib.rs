//! Felix: scheduling made easy.
//!
//! Felix helps schedule multiple activities involving many people, on a daily rate,
//! with 5-minute precision. This crate holds the verified data model: times and
//! time intervals, work hours, entities, groups, activities and the scheduling rules
//! that keep them coherent.

pub mod time;
pub mod time_interval;
pub mod errors;
pub mod strings;
pub mod text;
pub mod named;
pub mod work_intervals;
pub mod work_hours;
pub mod entity;
pub mod group;
pub mod sort;
pub mod stable_order;
pub mod id_computation;
pub mod activity_metadata;
pub mod computation_data;
pub mod activities;
pub mod computation;
pub mod possible_beginnings_updater;
pub mod data;
