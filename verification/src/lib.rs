//! Verified core of a ray tracer: Perlin noise tables, CSG filtering rules,
//! group division, area light sampling, refraction bookkeeping, OBJ text
//! parsing, canvas storage and small generic numeric helpers.

pub mod canvas;
pub mod csg;
pub mod group;
pub mod light;
pub mod list_builder;
pub mod obj;
pub mod perlin;
pub mod refraction;
pub mod shapes;
pub mod text;
pub mod transformation;
pub mod util;
