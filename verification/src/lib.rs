//! The verified core of an image viewer with a bounding box annotation
//! editor.
//!
//! * [`geometry`]: points and exact integer arithmetic on the annotation
//!   grid.
//! * [`bbox`]: one annotated rectangle, and which part of it a pointer takes
//!   hold of.
//! * [`edit`]: the edit session, the state machine that turns pointer
//!   presses, moves and releases into new, resized and moved boxes.
//! * [`yolo_labels`]: the text format that keeps the boxes, with [`decimal`]
//!   for its numbers and [`text`] for its lines and fields.
//! * [`shortcuts`], [`settings`], [`message`]: keyboard shortcuts, what is
//!   kept between runs, and what the user is told.
//!
//! All coordinates are whole numbers of grid units, and every function is
//! total on them or says in its contract what it asks for: nothing here
//! panics, overflows or rounds without saying so.

pub mod bbox;
pub mod decimal;
pub mod edit;
pub mod geometry;
pub mod message;
pub mod settings;
pub mod shortcuts;
pub mod text;
pub mod yolo_labels;
