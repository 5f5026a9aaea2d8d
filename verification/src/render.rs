use vstd::prelude::*;

use crate::config::Color;
use crate::config::TextConfig;
use crate::element::ImageData;
use crate::geometry::Dimension2D;
use crate::geometry::Point2D;

verus! {

/// One primitive a rendering backend knows how to paint: a filled
/// rectangle, a filled circle, a run of text, or an image.
#[derive(Debug)]
pub enum RlayDrawCommand {
    DrawRectangle { position: Point2D, dimensions: Dimension2D, color: Color },
    DrawCircle { position: Point2D, radius: i64, color: Color },
    DrawText { text: String, position: Point2D, dimensions: Dimension2D, config: TextConfig },
    DrawImage { data: ImageData, position: Point2D, dimensions: Dimension2D },
}

/// Something a backend can be told to paint.
pub trait DrawCommand {
    fn draw(&self);
}

} // verus!
