pub mod cell;
pub mod faces;
pub mod grid;
pub mod traversal;

pub use cell::{
    active_cells, active_cells_in_layers, cell_crossings, cell_is_active, ActiveCell, Axis, EdgeCrossing,
};
pub use faces::{
    extract_faces, extract_faces_in_layers, repeat_per_corner, triangle_corners, Triangle,
};
pub use grid::{index, GridError, SignGrid};
