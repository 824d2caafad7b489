//! The parts of a triangle-mesh ray tracer that are decided by counting and
//! by the shape of text: reading Wavefront OBJ and MTL files, sampling
//! texture maps, scanning the pixels of an image band by band, and ordering
//! the hits of a ray.

pub mod camera_iterator;
pub mod mesh;
pub mod picture;
pub mod ray;
pub mod text;
pub mod texture;
pub mod wavefront_mtl;
pub mod wavefront_obj;
pub mod world;
