//! A minimal ray-tracing core over exact fixed-point arithmetic.
//!
//! Every quantity is a signed count of micro-units (one unit equals
//! `fixed::SCALE` raw steps), so the whole intersection and shading
//! pipeline is integer arithmetic with a single, documented rounding
//! rule: division truncates toward zero. Contracts pin each result
//! down exactly in terms of that arithmetic.

pub mod common;
pub mod fixed;
pub mod hittable;
pub mod hittable_list;
pub mod laws;
pub mod ray;
pub mod render;
pub mod sphere;
pub mod vec3;
