pub mod crc;
pub mod solver;
