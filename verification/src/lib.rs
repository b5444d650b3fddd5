//! A planar sketch kernel on an integer grid.
//!
//! A sketch is an unordered bag of straight and circular segments between
//! named points. From that bag the kernel finds the closed loops (rings) and
//! the nested regions (faces) that the segments bound, and places them in
//! space.
//!
//! Coordinates are fixed-point: one unit is 10^-5 of a sketch unit, which is
//! also the distance under which two coordinates count as the same. All
//! geometric decisions are made in exact integer arithmetic.
//!
//! - `point`, `segment`: the points and the segments of a sketch.
//! - `angle`: exact turn angles, by which a walk chooses its way.
//! - `circle`: the circle of an arc, and the direction in which a segment
//!   sets out.
//! - `ring`: chains of segments, their signed areas and their outlines.
//! - `trace`: walking the directed segments of a sketch into rings.
//! - `order`: the stable order in which the rings are handed out.
//! - `face`: rings with their holes.
//! - `sketch`: the sketch itself, its rings and its faces.
//! - `closed_loop`: what is found in a single closed loop.
//! - `space`, `view`: frames in space, and a sketch seen through one.
//! - `round`: quotients and square roots in whole numbers.
//! - `error`, `operation`: the errors of the kernel, and what an extrusion
//!   does with its solid.

pub mod angle;
pub mod circle;
pub mod closed_loop;
pub mod error;
pub mod face;
pub mod operation;
pub mod order;
pub mod point;
pub mod ring;
pub mod round;
pub mod segment;
pub mod sketch;
pub mod space;
pub mod trace;
pub mod view;
