//! The logic of a terminal dashboard for picking a cloud instance: a list of
//! regions with favourites, a table of instances under a text filter, a
//! single-line text editor for the filter, and the controller that routes
//! input between them. Nothing here draws, reads input or touches files; a
//! program around this library does that and feeds it events.

pub mod app;
pub mod aws;
pub mod components;
pub mod selection;
pub mod sorting;
pub mod text;
