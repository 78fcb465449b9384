pub mod coords;
pub mod world_structure;
pub mod chunk;
pub mod point_set;
pub mod chunk_map;
pub mod chunk_table;
pub mod seq_facts;
pub mod chunk_loader;
pub mod rendering;
pub mod random;
pub mod perlin;
pub mod world_generator;
pub mod greedy;
pub mod rings;
pub mod cube_mesh;
pub mod rect_mesh;
pub mod controls;
pub mod masks;
pub mod block_types;
