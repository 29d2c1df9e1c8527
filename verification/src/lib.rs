//! A gravitational n-body simulation engine with exact fixed-point
//! arithmetic: a body model, Newton's force law, a Barnes-Hut quadtree
//! with mass aggregation, and two interchangeable stepping strategies.

pub mod scalar;
pub mod vec2;
pub mod body;
pub mod simulation;
