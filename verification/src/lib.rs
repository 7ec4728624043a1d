//! Procedural PBR material maps for networks of tubular "wire" curves.
//!
//! Every output pixel is produced by evaluating an implicit distance field
//! over a plane of poly-line wires, never by rasterizing triangles.  All
//! geometry is carried in fixed-point integers (see [`fixed`]) so that each
//! channel value is an exact, fully specified function of the input wires.

mod drawable;
mod fixed;
mod geometry;
mod line;
mod profile;
mod raster;
mod texture;
mod wire;
mod world;

pub use drawable::Drawable;
pub use fixed::COORD_LIMIT;
pub use fixed::SCALE;
pub use geometry::Point2;
pub use geometry::Point3;
pub use geometry::Vector2;
pub use geometry::Vector3;
pub use line::DistanceResult;
pub use line::Line;
pub use profile::CircleProfile;
pub use profile::Material;
pub use profile::Profile;
pub use profile::RopeMaterial;
pub use profile::SimpleColoredMaterial;
pub use raster::Channel;
pub use raster::apply_function;
pub use raster::channel_texel;
pub use raster::fill_ids;
pub use raster::id_to_bytes;
pub use raster::texture_point_to_world;
pub use raster::world_point_to_texture;
pub use texture::SAMPLE_LIMIT;
pub use texture::Texture;
pub use texture::TextureU8;
pub use texture::map_texture_normalize;
pub use texture::map_texture_range;
pub use wire::Wire;
pub use wire::WireNode;
pub use world::DISPLAY_SCALE;
pub use world::World;
pub use world::albedo_function;
pub use world::alpha_function;
pub use world::height_function;
pub use world::id_function;
pub use world::normal_function;
