pub mod golden;
pub mod point;
pub mod tile;
pub mod tiling;
pub mod pairing;
pub mod laws;
pub mod area;
pub mod robinson;
