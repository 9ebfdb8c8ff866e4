//! Compiles a hierarchical scene description (bodies, geometric primitives,
//! joints, default classes and named assets) into a flat, render-ready
//! collection of triangle meshes.
//!
//! The stages follow one another in a fixed order: the events of a document
//! build the trees ([`builder`]), the default classes resolve the bodies
//! ([`defaults`]), the assets are bound to the geoms that refer to them
//! ([`binding`], [`assets`]), every geom becomes a job ([`plan`]), and the
//! meshes made from the jobs are merged into one buffer ([`drawable`]).
//!
//! Real numbers never take part in arithmetic here: a coordinate is carried
//! either as the decimal numeral it was written with or as the bit pattern of
//! a single-precision value ([`scalar`]), and the caller performs the numeric
//! work that a job describes.

pub mod text;
pub mod scalar;
pub mod attrs;
pub mod error;
pub mod schema;
pub mod node;
pub mod rules;
pub mod ops;
pub mod builder;
pub mod defaults;
pub mod assets;
pub mod binding;
pub mod drawable;
pub mod texture;
pub mod geometry;
pub mod plan;
pub mod xml;
pub mod model;
pub mod rubiks;
pub mod plugin;
pub mod view;
