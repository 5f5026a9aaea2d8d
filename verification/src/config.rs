use vstd::prelude::*;

use crate::geometry::Dimension2D;
use crate::geometry::Point2D;
use crate::geometry::DIM_MAX;

verus! {

/// Denominator of the `Percent` sizing policy: a percentage is stored as an
/// integer numerator over this scale, so the whole range `0..=PERCENT_SCALE`
/// stands for the real interval from zero to one.
pub const PERCENT_SCALE: i64 = 1_000_000;

/// Lower and upper limit for a single sizing axis. An absent limit is stored
/// as the loosest bound the engine supports: `0` below and `DIM_MAX` above.
#[derive(Debug, Clone, Copy, PartialEq, Eq, Structural)]
pub struct MinMax {
    pub min: i64,
    pub max: i64,
}

impl MinMax {
    pub open spec fn wf(self) -> bool {
        -DIM_MAX <= self.min <= self.max <= DIM_MAX
    }

    pub fn new(min: i64, max: i64) -> (r: Self)
        requires
            -DIM_MAX <= min <= max <= DIM_MAX,
        ensures
            r == (MinMax { min, max }),
            r.wf(),
    {
        MinMax { min, max }
    }

    /// Clamps the value to be >= min and <= max
    pub fn clamp(&self, value: i64) -> (r: i64)
        requires
            self.min <= self.max,
        ensures
            r == spec_clamp(value as int, self.min as int, self.max as int),
    {
        if value < self.min {
            self.min
        } else if value > self.max {
            self.max
        } else {
            value
        }
    }

    pub fn get_min(&self) -> (r: i64)
        ensures
            r == self.min,
    {
        self.min
    }

    pub fn get_max(&self) -> (r: i64)
        ensures
            r == self.max,
    {
        self.max
    }
}

impl Default for MinMax {
    /// The default limits leave an axis effectively unconstrained.
    fn default() -> (r: Self)
        ensures
            r == (MinMax { min: 0i64, max: DIM_MAX }),
    {
        MinMax { min: 0, max: DIM_MAX }
    }
}

pub open spec fn spec_clamp(v: int, lo: int, hi: int) -> int {
    if v < lo {
        lo
    } else if v > hi {
        hi
    } else {
        v
    }
}

/// Per-axis sizing policy: shrink to content within limits, a literal pixel
/// value, expand into free space within limits, or a fraction of the parent.
#[derive(Debug, Clone, Copy, PartialEq, Eq, Structural)]
pub enum SizingAxis {
    Fit(MinMax),
    Fixed(i64),
    Grow(MinMax),
    /// A numerator over `PERCENT_SCALE`, standing for a value between 0 and 1
    Percent(i64),
}

impl SizingAxis {
    pub open spec fn wf(self) -> bool {
        match self {
            SizingAxis::Fit(mm) => mm.wf(),
            SizingAxis::Grow(mm) => mm.wf(),
            SizingAxis::Fixed(v) => -DIM_MAX <= v <= DIM_MAX,
            SizingAxis::Percent(p) => 0 <= p <= PERCENT_SCALE,
        }
    }

    /// Constructs a validated `Percent` policy; the fraction must lie in
    /// `[0, PERCENT_SCALE]`, standing for the real interval `[0, 1]`.
    pub fn percent(value: i64) -> (r: Self)
        requires
            0 <= value <= PERCENT_SCALE,
        ensures
            r == SizingAxis::Percent(value),
            r.wf(),
    {
        SizingAxis::Percent(value)
    }

    pub fn get_max(&self) -> (r: i64)
        requires
            !(self is Percent),
        ensures
            r == self.spec_get_max(),
    {
        match self {
            SizingAxis::Fit(min_max) => min_max.max,
            SizingAxis::Grow(min_max) => min_max.max,
            SizingAxis::Fixed(val) => *val,
            SizingAxis::Percent(_) => 0,
        }
    }

    pub fn get_min(&self) -> (r: i64)
        requires
            !(self is Percent),
        ensures
            r == self.spec_get_min(),
    {
        match self {
            SizingAxis::Fit(min_max) => min_max.min,
            SizingAxis::Grow(min_max) => min_max.min,
            SizingAxis::Fixed(val) => *val,
            SizingAxis::Percent(_) => 0,
        }
    }

    pub open spec fn spec_get_max(self) -> i64 {
        match self {
            SizingAxis::Fit(min_max) => min_max.max,
            SizingAxis::Grow(min_max) => min_max.max,
            SizingAxis::Fixed(val) => val,
            SizingAxis::Percent(_) => 0,
        }
    }

    pub open spec fn spec_get_min(self) -> i64 {
        match self {
            SizingAxis::Fit(min_max) => min_max.min,
            SizingAxis::Grow(min_max) => min_max.min,
            SizingAxis::Fixed(val) => val,
            SizingAxis::Percent(_) => 0,
        }
    }
}

impl Default for SizingAxis {
    fn default() -> (r: Self)
        ensures
            r == SizingAxis::Fit(MinMax { min: 0i64, max: DIM_MAX }),
    {
        SizingAxis::Fit(MinMax { min: 0, max: DIM_MAX })
    }
}

#[derive(Debug, Clone, Copy, PartialEq, Eq, Structural)]
pub struct Sizing {
    pub width: SizingAxis,
    pub height: SizingAxis,
}

impl Sizing {
    pub open spec fn wf(self) -> bool {
        self.width.wf() && self.height.wf()
    }

    pub fn new(width: SizingAxis, height: SizingAxis) -> (r: Self)
        ensures
            r == (Sizing { width, height }),
    {
        Sizing { width, height }
    }

    pub fn width(width: SizingAxis) -> (r: Self)
        ensures
            r.width == width,
            r.height == SizingAxis::Fit(MinMax { min: 0i64, max: DIM_MAX }),
    {
        Sizing { width, height: SizingAxis::default() }
    }

    pub fn height(height: SizingAxis) -> (r: Self)
        ensures
            r.height == height,
            r.width == SizingAxis::Fit(MinMax { min: 0i64, max: DIM_MAX }),
    {
        Sizing { width: SizingAxis::default(), height }
    }
}

impl Default for Sizing {
    fn default() -> (r: Self)
        ensures
            r.width == SizingAxis::Fit(MinMax { min: 0i64, max: DIM_MAX }),
            r.height == SizingAxis::Fit(MinMax { min: 0i64, max: DIM_MAX }),
    {
        Sizing { width: SizingAxis::default(), height: SizingAxis::default() }
    }
}

/// Four-sided inner spacing of a container, in pixels.
#[derive(Debug, Clone, Copy, PartialEq, Eq, Structural)]
pub struct Padding {
    pub left: i64,
    pub top: i64,
    pub right: i64,
    pub bottom: i64,
}

impl Padding {
    pub open spec fn wf(self) -> bool {
        &&& -DIM_MAX <= self.left <= DIM_MAX
        &&& -DIM_MAX <= self.top <= DIM_MAX
        &&& -DIM_MAX <= self.right <= DIM_MAX
        &&& -DIM_MAX <= self.bottom <= DIM_MAX
    }

    pub fn new(left: i64, top: i64, right: i64, bottom: i64) -> (r: Self)
        ensures
            r == (Padding { left, top, right, bottom }),
    {
        Padding { left, top, right, bottom }
    }

    pub fn left(self, val: i64) -> (r: Self)
        ensures
            r == (Padding { left: val, ..self }),
    {
        Padding { left: val, ..self }
    }

    pub fn right(self, val: i64) -> (r: Self)
        ensures
            r == (Padding { right: val, ..self }),
    {
        Padding { right: val, ..self }
    }

    pub fn top(self, val: i64) -> (r: Self)
        ensures
            r == (Padding { top: val, ..self }),
    {
        Padding { top: val, ..self }
    }

    pub fn bottom(self, val: i64) -> (r: Self)
        ensures
            r == (Padding { bottom: val, ..self }),
    {
        Padding { bottom: val, ..self }
    }

    pub fn x(self, val: i64) -> (r: Self)
        ensures
            r == (Padding { left: val, right: val, ..self }),
    {
        Padding { left: val, right: val, ..self }
    }

    pub fn y(self, val: i64) -> (r: Self)
        ensures
            r == (Padding { top: val, bottom: val, ..self }),
    {
        Padding { top: val, bottom: val, ..self }
    }

    pub fn all(self, val: i64) -> (r: Self)
        ensures
            r == (Padding { left: val, top: val, right: val, bottom: val }),
    {
        Padding { left: val, top: val, right: val, bottom: val }
    }

    /// Total horizontal spacing: left plus right.
    pub fn val_x(&self) -> (r: i64)
        requires
            i64::MIN <= self.left + self.right <= i64::MAX,
        ensures
            r == self.left + self.right,
    {
        self.left + self.right
    }

    /// Total vertical spacing: top plus bottom.
    pub fn val_y(&self) -> (r: i64)
        requires
            i64::MIN <= self.top + self.bottom <= i64::MAX,
        ensures
            r == self.top + self.bottom,
    {
        self.top + self.bottom
    }

    pub fn as_dimensions(&self) -> (r: Dimension2D)
        requires
            i64::MIN <= self.left + self.right <= i64::MAX,
            i64::MIN <= self.top + self.bottom <= i64::MAX,
        ensures
            r == (Dimension2D {
                width: (self.left + self.right) as i64,
                height: (self.top + self.bottom) as i64,
            }),
    {
        Dimension2D { width: self.left + self.right, height: self.top + self.bottom }
    }
}

/// An RGBA color with one byte per channel.
#[derive(Debug, Clone, Copy, PartialEq, Eq, Structural)]
pub struct Color {
    pub r: u8,
    pub g: u8,
    pub b: u8,
    pub a: u8,
}

impl Color {
    pub fn new(r: u8, g: u8, b: u8, a: u8) -> (c: Color)
        ensures
            c == (Color { r, g, b, a }),
    {
        Color { r, g, b, a }
    }

    pub fn new_const(r: u8, g: u8, b: u8, a: u8) -> (c: Color)
        ensures
            c == (Color { r, g, b, a }),
    {
        Color { r, g, b, a }
    }

    pub fn from_rgba(r: u8, g: u8, b: u8, a: u8) -> (c: Color)
        ensures
            c == (Color { r, g, b, a }),
    {
        Color { r, g, b, a }
    }
}

impl Default for Color {
    /// Opaque black.
    fn default() -> (c: Color)
        ensures
            c == (Color { r: 0u8, g: 0u8, b: 0u8, a: 255u8 }),
    {
        Color { r: 0, g: 0, b: 0, a: 255 }
    }
}

#[derive(Debug, Clone, Copy, PartialEq, Eq, Structural)]
pub enum LayoutDirection {
    LeftToRight,
    TopToBottom,
}

impl LayoutDirection {
    /// Selects between the two arguments according to the direction.
    pub fn value_on_axis<T>(&self, left_to_right: T, top_to_bottom: T) -> (r: T)
        ensures
            self is LeftToRight ==> r == left_to_right,
            self is TopToBottom ==> r == top_to_bottom,
    {
        match self {
            LayoutDirection::LeftToRight => left_to_right,
            LayoutDirection::TopToBottom => top_to_bottom,
        }
    }
}

impl Default for LayoutDirection {
    fn default() -> (r: Self)
        ensures
            r == LayoutDirection::LeftToRight,
    {
        LayoutDirection::LeftToRight
    }
}

/// Border thickness on each side, in pixels; zero means no border there.
#[derive(Debug, Clone, Copy, PartialEq, Eq, Structural)]
pub struct BorderWidth {
    pub left: i64,
    pub right: i64,
    pub top: i64,
    pub bottom: i64,
}

impl BorderWidth {
    pub fn new(left: i64, right: i64, top: i64, bottom: i64) -> (r: Self)
        ensures
            r == (BorderWidth { left, right, top, bottom }),
    {
        BorderWidth { left, right, top, bottom }
    }

    pub fn to_tuple(self) -> (r: (i64, i64, i64, i64))
        ensures
            r == (self.left, self.top, self.right, self.bottom),
    {
        (self.left, self.top, self.right, self.bottom)
    }

    pub fn to_border_layout(self) -> (r: (Point2D, Dimension2D))
        requires
            i64::MIN <= self.left + self.right <= i64::MAX,
            i64::MIN <= self.top + self.bottom <= i64::MAX,
        ensures
            r.0 == (Point2D { x: self.left, y: self.top }),
            r.1 == (Dimension2D {
                width: (self.left + self.right) as i64,
                height: (self.top + self.bottom) as i64,
            }),
    {
        (
            Point2D { x: self.left, y: self.top },
            Dimension2D { width: self.left + self.right, height: self.top + self.bottom },
        )
    }

    pub fn left(self, val: i64) -> (r: Self)
        ensures
            r == (BorderWidth { left: val, ..self }),
    {
        BorderWidth { left: val, ..self }
    }

    pub fn right(self, val: i64) -> (r: Self)
        ensures
            r == (BorderWidth { right: val, ..self }),
    {
        BorderWidth { right: val, ..self }
    }

    pub fn top(self, val: i64) -> (r: Self)
        ensures
            r == (BorderWidth { top: val, ..self }),
    {
        BorderWidth { top: val, ..self }
    }

    pub fn bottom(self, val: i64) -> (r: Self)
        ensures
            r == (BorderWidth { bottom: val, ..self }),
    {
        BorderWidth { bottom: val, ..self }
    }

    pub fn x(self, val: i64) -> (r: Self)
        ensures
            r == (BorderWidth { left: val, right: val, ..self }),
    {
        BorderWidth { left: val, right: val, ..self }
    }

    pub fn y(self, val: i64) -> (r: Self)
        ensures
            r == (BorderWidth { top: val, bottom: val, ..self }),
    {
        BorderWidth { top: val, bottom: val, ..self }
    }

    pub fn all(self, val: i64) -> (r: Self)
        ensures
            r == (BorderWidth { left: val, right: val, top: val, bottom: val }),
    {
        BorderWidth { left: val, right: val, top: val, bottom: val }
    }
}

/// Rounding radius of each corner, in pixels; zero means a sharp corner.
#[derive(Debug, Clone, Copy, PartialEq, Eq, Structural)]
pub struct CorderRadius {
    pub top_left: i64,
    pub top_right: i64,
    pub bottom_left: i64,
    pub bottom_right: i64,
}

impl CorderRadius {
    pub fn new(top_left: i64, top_right: i64, bottom_left: i64, bottom_right: i64) -> (r: Self)
        ensures
            r == (CorderRadius { top_left, top_right, bottom_left, bottom_right }),
    {
        CorderRadius { top_left, top_right, bottom_left, bottom_right }
    }

    pub fn to_tuple(self) -> (r: (i64, i64, i64, i64))
        ensures
            r == (self.top_left, self.top_right, self.bottom_left, self.bottom_right),
    {
        (self.top_left, self.top_right, self.bottom_left, self.bottom_right)
    }

    pub fn to_tuple_capped(self, max: i64) -> (r: (i64, i64, i64, i64))
        ensures
            r.0 == if self.top_left < max { self.top_left } else { max },
            r.1 == if self.top_right < max { self.top_right } else { max },
            r.2 == if self.bottom_left < max { self.bottom_left } else { max },
            r.3 == if self.bottom_right < max { self.bottom_right } else { max },
    {
        (
            if self.top_left < max { self.top_left } else { max },
            if self.top_right < max { self.top_right } else { max },
            if self.bottom_left < max { self.bottom_left } else { max },
            if self.bottom_right < max { self.bottom_right } else { max },
        )
    }

    pub fn to_corner_layout(self) -> (r: (Point2D, Dimension2D))
        requires
            i64::MIN <= self.top_left + self.top_right <= i64::MAX,
            i64::MIN <= self.bottom_left + self.bottom_right <= i64::MAX,
        ensures
            r.0 == (Point2D { x: self.top_left, y: self.top_left }),
            r.1 == (Dimension2D {
                width: (self.top_left + self.top_right) as i64,
                height: (self.bottom_left + self.bottom_right) as i64,
            }),
    {
        (
            Point2D { x: self.top_left, y: self.top_left },
            Dimension2D {
                width: self.top_left + self.top_right,
                height: self.bottom_left + self.bottom_right,
            },
        )
    }

    pub fn top_left(self, val: i64) -> (r: Self)
        ensures
            r == (CorderRadius { top_left: val, ..self }),
    {
        CorderRadius { top_left: val, ..self }
    }

    pub fn top_right(self, val: i64) -> (r: Self)
        ensures
            r == (CorderRadius { top_right: val, ..self }),
    {
        CorderRadius { top_right: val, ..self }
    }

    pub fn bottom_left(self, val: i64) -> (r: Self)
        ensures
            r == (CorderRadius { bottom_left: val, ..self }),
    {
        CorderRadius { bottom_left: val, ..self }
    }

    pub fn bottom_right(self, val: i64) -> (r: Self)
        ensures
            r == (CorderRadius { bottom_right: val, ..self }),
    {
        CorderRadius { bottom_right: val, ..self }
    }

    pub fn top(self, val: i64) -> (r: Self)
        ensures
            r == (CorderRadius { top_left: val, top_right: val, ..self }),
    {
        CorderRadius { top_left: val, top_right: val, ..self }
    }

    pub fn bottom(self, val: i64) -> (r: Self)
        ensures
            r == (CorderRadius { bottom_left: val, bottom_right: val, ..self }),
    {
        CorderRadius { bottom_left: val, bottom_right: val, ..self }
    }

    pub fn all(self, val: i64) -> (r: Self)
        ensures
            r == (CorderRadius {
                top_left: val,
                top_right: val,
                bottom_left: val,
                bottom_right: val,
            }),
    {
        CorderRadius { top_left: val, top_right: val, bottom_left: val, bottom_right: val }
    }
}

#[derive(Debug, Clone, Copy, PartialEq, Eq, Structural)]
pub enum FloatingAttachPointType {
    LeftTop,
    LeftCenter,
    LeftBottom,
    CenterTop,
    CenterCenter,
    CenterBottom,
    RightTop,
    RightCenter,
    RightBottom,
}

impl Default for FloatingAttachPointType {
    fn default() -> (r: Self)
        ensures
            r == FloatingAttachPointType::LeftTop,
    {
        FloatingAttachPointType::LeftTop
    }
}

#[derive(Debug, Clone, Copy, PartialEq, Eq, Structural)]
pub struct FloatingAttachPoint {
    pub element: FloatingAttachPointType,
    pub parent: FloatingAttachPointType,
}

#[derive(Debug, Clone, Copy, PartialEq, Eq, Structural)]
pub enum FloatingAttachTo {
    Parent,
    ElementWithId,
    Root,
}

impl Default for FloatingAttachTo {
    fn default() -> (r: Self)
        ensures
            r == FloatingAttachTo::Parent,
    {
        FloatingAttachTo::Parent
    }
}

#[derive(Debug, Clone, Copy, PartialEq, Eq, Structural)]
pub enum PointerCaptureMode {
    Capture,
    Passthrough,
}

impl Default for PointerCaptureMode {
    fn default() -> (r: Self)
        ensures
            r == PointerCaptureMode::Capture,
    {
        PointerCaptureMode::Capture
    }
}

/// Whether a border is painted outside, inside, or centered on the edge.
#[derive(Debug, Clone, Copy, PartialEq, Eq, Structural)]
pub enum BorderMode {
    Outset,
    Inset,
    Midset,
}

impl Default for BorderMode {
    fn default() -> (r: Self)
        ensures
            r == BorderMode::Outset,
    {
        BorderMode::Outset
    }
}

#[derive(Debug, Clone, Copy, PartialEq, Eq, Structural)]
pub struct BorderConfig {
    pub color: Color,
    pub width: BorderWidth,
    pub mode: BorderMode,
}

#[derive(Debug, Clone, Copy, PartialEq, Eq, Structural)]
pub struct FloatingConfig {
    pub offset: Point2D,
    pub expand: Dimension2D,
    pub z_index: u16,
    pub attach_point: FloatingAttachPoint,
}

#[derive(Debug, Clone, Copy, PartialEq, Eq, Structural)]
pub struct ScrollConfig {
    pub horizontal: bool,
    pub vertical: bool,
}

/// Placement of children along one axis of their container.
#[derive(Debug, Clone, Copy, PartialEq, Eq, Structural)]
pub enum Alignment {
    Start,
    End,
    EndReverse,
    Center,
}

impl Default for Alignment {
    fn default() -> (r: Self)
        ensures
            r == Alignment::Start,
    {
        Alignment::Start
    }
}

#[derive(Debug, Clone, Copy, PartialEq, Eq, Structural)]
pub struct LayoutAlignment {
    pub x: Alignment,
    pub y: Alignment,
}

#[derive(Debug, Clone, Copy, PartialEq, Eq, Structural)]
pub enum WrapMode {
    Words,
    Newlines,
    NoWrap,
}

impl Default for WrapMode {
    fn default() -> (r: Self)
        ensures
            r == WrapMode::Words,
    {
        WrapMode::Words
    }
}

#[derive(Debug, Clone, Copy, PartialEq, Eq, Structural)]
pub enum TextAlignment {
    Left,
    Center,
    Right,
}

impl Default for TextAlignment {
    fn default() -> (r: Self)
        ensures
            r == TextAlignment::Left,
    {
        TextAlignment::Left
    }
}

#[derive(Debug)]
pub struct TextConfig {
    pub color: Color,
    pub font_id: u16,
    pub font_size: u16,
    pub font_name: Option<String>,
    pub letter_spacing: u16,
    pub line_height: u16,
    pub wrap_mode: WrapMode,
    pub text_alignment: TextAlignment,
}

impl Default for TextConfig {
    fn default() -> (r: Self)
        ensures
            r.color == (Color { r: 0u8, g: 0u8, b: 0u8, a: 255u8 }),
            r.font_id == 0u16,
            r.font_size == 20u16,
            r.font_name is None,
            r.letter_spacing == 1u16,
            r.line_height == 1u16,
            r.wrap_mode == WrapMode::Words,
            r.text_alignment == TextAlignment::Left,
    {
        TextConfig {
            color: Color::default(),
            font_id: 0,
            font_size: 20,
            font_name: None,
            letter_spacing: 1,
            line_height: 1,
            wrap_mode: WrapMode::Words,
            text_alignment: TextAlignment::Left,
        }
    }
}

impl Default for Padding {
    fn default() -> (r: Self)
        ensures
            r == (Padding { left: 0i64, top: 0i64, right: 0i64, bottom: 0i64 }),
    {
        Padding { left: 0, top: 0, right: 0, bottom: 0 }
    }
}

impl Default for BorderWidth {
    fn default() -> (r: Self)
        ensures
            r == (BorderWidth { left: 0i64, right: 0i64, top: 0i64, bottom: 0i64 }),
    {
        BorderWidth { left: 0, right: 0, top: 0, bottom: 0 }
    }
}

impl Default for CorderRadius {
    fn default() -> (r: Self)
        ensures
            r == (CorderRadius {
                top_left: 0i64,
                top_right: 0i64,
                bottom_left: 0i64,
                bottom_right: 0i64,
            }),
    {
        CorderRadius { top_left: 0, top_right: 0, bottom_left: 0, bottom_right: 0 }
    }
}

impl Default for FloatingAttachPoint {
    fn default() -> (r: Self)
        ensures
            r == (FloatingAttachPoint {
                element: FloatingAttachPointType::LeftTop,
                parent: FloatingAttachPointType::LeftTop,
            }),
    {
        FloatingAttachPoint {
            element: FloatingAttachPointType::LeftTop,
            parent: FloatingAttachPointType::LeftTop,
        }
    }
}

impl Default for BorderConfig {
    fn default() -> (r: Self)
        ensures
            r == (BorderConfig {
                color: Color { r: 0u8, g: 0u8, b: 0u8, a: 255u8 },
                width: BorderWidth { left: 0i64, right: 0i64, top: 0i64, bottom: 0i64 },
                mode: BorderMode::Outset,
            }),
    {
        BorderConfig { color: Color::default(), width: BorderWidth::default(), mode: BorderMode::Outset }
    }
}

impl Default for FloatingConfig {
    fn default() -> (r: Self)
        ensures
            r.offset == (Point2D { x: 0i64, y: 0i64 }),
            r.expand == (Dimension2D { width: 0i64, height: 0i64 }),
            r.z_index == 0u16,
            r.attach_point == (FloatingAttachPoint {
                element: FloatingAttachPointType::LeftTop,
                parent: FloatingAttachPointType::LeftTop,
            }),
    {
        FloatingConfig {
            offset: Point2D::default(),
            expand: Dimension2D::default(),
            z_index: 0,
            attach_point: FloatingAttachPoint::default(),
        }
    }
}

impl Default for ScrollConfig {
    fn default() -> (r: Self)
        ensures
            r == (ScrollConfig { horizontal: false, vertical: false }),
    {
        ScrollConfig { horizontal: false, vertical: false }
    }
}

impl Default for LayoutAlignment {
    fn default() -> (r: Self)
        ensures
            r == (LayoutAlignment { x: Alignment::Start, y: Alignment::Start }),
    {
        LayoutAlignment { x: Alignment::Start, y: Alignment::Start }
    }
}

} // verus!
