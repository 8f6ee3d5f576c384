//! A small scatter-plot renderer: loads a two-column integer dataset from
//! CSV text, transforms data-space points to device space, and paints them
//! (with axis lines and tick marks) onto a square pixel buffer.

pub mod canvas;
pub mod parse;
pub mod point;
pub mod worksheet;

pub use canvas::Canvas;
pub use canvas::Drawable;
pub use canvas::RenderError;
pub use parse::ParseError;
pub use point::Point;
pub use worksheet::WorkSheet;
pub use worksheet::WorkSheetBuilder;
