use vstd::prelude::*;

use crate::config::Alignment;
use crate::config::BorderConfig;
use crate::config::Color;
use crate::config::CorderRadius;
use crate::config::FloatingConfig;
use crate::config::LayoutAlignment;
use crate::config::LayoutDirection;
use crate::config::Padding;
use crate::config::PointerCaptureMode;
use crate::config::ScrollConfig;
use crate::config::Sizing;
use crate::config::SizingAxis;
use crate::geometry::DIM_MAX;

verus! {

/// A style record that can be overridden field by field with a partial
/// record of the matching shape.
pub trait Config: Sized {
    type PartialConfig;

    /// Merge two configs, the `other` config takes precedent
    fn merge(&self, other: Self::PartialConfig) -> Self;
}

/// Full per-container style record: sizing policy, spacing, decoration,
/// layout direction and interaction flags.
#[derive(Debug, Clone, Copy, PartialEq, Eq, Structural)]
pub struct ContainerConfig {
    pub sizing: Sizing,
    pub background_color: Option<Color>,
    pub padding: Padding,
    pub layout_direction: LayoutDirection,
    pub child_gap: i64,
    pub align: LayoutAlignment,
    pub border: Option<BorderConfig>,
    pub corner_radius: Option<CorderRadius>,
    pub floating: Option<FloatingConfig>,
    pub scroll: ScrollConfig,
    pub pointer_capture: PointerCaptureMode,
    pub focusable: bool,
}

/// A container record with every field optional, used to override another
/// record field by field: a `Some` wins, a `None` leaves the base unchanged.
#[derive(Debug, Clone, Copy, PartialEq, Eq, Structural)]
pub struct PartialContainerConfig {
    pub sizing: Option<Sizing>,
    pub background_color: Option<Color>,
    pub padding: Option<Padding>,
    pub layout_direction: Option<LayoutDirection>,
    pub child_gap: Option<i64>,
    pub align: Option<LayoutAlignment>,
    pub border: Option<BorderConfig>,
    pub corner_radius: Option<CorderRadius>,
    pub floating: Option<FloatingConfig>,
    pub scroll: Option<ScrollConfig>,
    pub pointer_capture: Option<PointerCaptureMode>,
    pub focusable: Option<bool>,
}

pub open spec fn spec_default_container_config() -> ContainerConfig {
    ContainerConfig {
        sizing: Sizing {
            width: SizingAxis::Fit(crate::config::MinMax { min: 0, max: DIM_MAX }),
            height: SizingAxis::Fit(crate::config::MinMax { min: 0, max: DIM_MAX }),
        },
        background_color: None,
        padding: Padding { left: 0, top: 0, right: 0, bottom: 0 },
        layout_direction: LayoutDirection::LeftToRight,
        child_gap: 0,
        align: LayoutAlignment { x: Alignment::Start, y: Alignment::Start },
        border: None,
        corner_radius: None,
        floating: None,
        scroll: ScrollConfig { horizontal: false, vertical: false },
        pointer_capture: PointerCaptureMode::Capture,
        focusable: false,
    }
}

impl Default for ContainerConfig {
    fn default() -> (r: Self)
        ensures
            r == spec_default_container_config(),
    {
        ContainerConfig {
            sizing: Sizing::default(),
            background_color: None,
            padding: Padding::default(),
            layout_direction: LayoutDirection::LeftToRight,
            child_gap: 0,
            align: LayoutAlignment::default(),
            border: None,
            corner_radius: None,
            floating: None,
            scroll: ScrollConfig::default(),
            pointer_capture: PointerCaptureMode::Capture,
            focusable: false,
        }
    }
}

impl Default for PartialContainerConfig {
    fn default() -> (r: Self)
        ensures
            r == (PartialContainerConfig {
                sizing: None,
                background_color: None,
                padding: None,
                layout_direction: None,
                child_gap: None,
                align: None,
                border: None,
                corner_radius: None,
                floating: None,
                scroll: None,
                pointer_capture: None,
                focusable: None,
            }),
    {
        PartialContainerConfig {
            sizing: None,
            background_color: None,
            padding: None,
            layout_direction: None,
            child_gap: None,
            align: None,
            border: None,
            corner_radius: None,
            floating: None,
            scroll: None,
            pointer_capture: None,
            focusable: None,
        }
    }
}

/// The record `base` with every `Some` field of `other` substituted in:
/// last write wins, field by field. For fields that are optional in the
/// full record too, a `None` in `other` keeps the base value.
pub open spec fn spec_merge(base: ContainerConfig, other: PartialContainerConfig) -> ContainerConfig {
    ContainerConfig {
        sizing: if other.sizing is Some {
            other.sizing->0
        } else {
            base.sizing
        },
        background_color: if other.background_color is Some {
            other.background_color
        } else {
            base.background_color
        },
        padding: if other.padding is Some {
            other.padding->0
        } else {
            base.padding
        },
        layout_direction: if other.layout_direction is Some {
            other.layout_direction->0
        } else {
            base.layout_direction
        },
        child_gap: if other.child_gap is Some {
            other.child_gap->0
        } else {
            base.child_gap
        },
        align: if other.align is Some {
            other.align->0
        } else {
            base.align
        },
        border: if other.border is Some {
            other.border
        } else {
            base.border
        },
        corner_radius: if other.corner_radius is Some {
            other.corner_radius
        } else {
            base.corner_radius
        },
        floating: if other.floating is Some {
            other.floating
        } else {
            base.floating
        },
        scroll: if other.scroll is Some {
            other.scroll->0
        } else {
            base.scroll
        },
        pointer_capture: if other.pointer_capture is Some {
            other.pointer_capture->0
        } else {
            base.pointer_capture
        },
        focusable: if other.focusable is Some {
            other.focusable->0
        } else {
            base.focusable
        },
    }
}

impl ContainerConfig {
    pub open spec fn wf(self) -> bool {
        &&& self.sizing.wf()
        &&& self.padding.wf()
        &&& -DIM_MAX <= self.child_gap <= DIM_MAX
    }

    /// Whether every numeric field lies within the engine's limits.
    pub fn wf_check(&self) -> (r: bool)
        ensures
            r == self.wf(),
    {
        self.sizing_axis_ok(&self.sizing.width) && self.sizing_axis_ok(&self.sizing.height)
            && self.padding.left >= -DIM_MAX && self.padding.left <= DIM_MAX && self.padding.top
            >= -DIM_MAX && self.padding.top <= DIM_MAX && self.padding.right >= -DIM_MAX
            && self.padding.right <= DIM_MAX && self.padding.bottom >= -DIM_MAX
            && self.padding.bottom <= DIM_MAX && self.child_gap >= -DIM_MAX && self.child_gap
            <= DIM_MAX
    }

    fn sizing_axis_ok(&self, a: &SizingAxis) -> (r: bool)
        ensures
            r == a.wf(),
    {
        match a {
            SizingAxis::Fit(mm) => -DIM_MAX <= mm.min && mm.min <= mm.max && mm.max <= DIM_MAX,
            SizingAxis::Grow(mm) => -DIM_MAX <= mm.min && mm.min <= mm.max && mm.max <= DIM_MAX,
            SizingAxis::Fixed(v) => -DIM_MAX <= *v && *v <= DIM_MAX,
            SizingAxis::Percent(p) => 0 <= *p && *p <= crate::config::PERCENT_SCALE,
        }
    }

    /// Merge two configs, the `other` config takes precedent
    pub fn merge(&self, other: PartialContainerConfig) -> (r: ContainerConfig)
        ensures
            r == spec_merge(*self, other),
    {
        ContainerConfig {
            sizing: match other.sizing {
                Some(v) => v,
                None => self.sizing,
            },
            background_color: match other.background_color {
                Some(v) => Some(v),
                None => self.background_color,
            },
            padding: match other.padding {
                Some(v) => v,
                None => self.padding,
            },
            layout_direction: match other.layout_direction {
                Some(v) => v,
                None => self.layout_direction,
            },
            child_gap: match other.child_gap {
                Some(v) => v,
                None => self.child_gap,
            },
            align: match other.align {
                Some(v) => v,
                None => self.align,
            },
            border: match other.border {
                Some(v) => Some(v),
                None => self.border,
            },
            corner_radius: match other.corner_radius {
                Some(v) => Some(v),
                None => self.corner_radius,
            },
            floating: match other.floating {
                Some(v) => Some(v),
                None => self.floating,
            },
            scroll: match other.scroll {
                Some(v) => v,
                None => self.scroll,
            },
            pointer_capture: match other.pointer_capture {
                Some(v) => v,
                None => self.pointer_capture,
            },
            focusable: match other.focusable {
                Some(v) => v,
                None => self.focusable,
            },
        }
    }

    /// Leading padding along the container's own layout axis, as selected by
    /// the alignment on that axis.
    pub open spec fn spec_padding_in_axis(self) -> i64 {
        match self.layout_direction {
            LayoutDirection::LeftToRight => match self.align.x {
                Alignment::Start => self.padding.left,
                Alignment::End => self.padding.right,
                Alignment::EndReverse => self.padding.right,
                Alignment::Center => self.padding.left,
            },
            LayoutDirection::TopToBottom => match self.align.y {
                Alignment::Start => self.padding.top,
                Alignment::End => self.padding.bottom,
                Alignment::EndReverse => self.padding.bottom,
                Alignment::Center => self.padding.top,
            },
        }
    }

    pub fn padding_in_axis(&self) -> (r: i64)
        ensures
            r == self.spec_padding_in_axis(),
    {
        match self.layout_direction {
            LayoutDirection::LeftToRight => match self.align.x {
                Alignment::Start => self.padding.left,
                Alignment::End => self.padding.right,
                Alignment::EndReverse => self.padding.right,
                Alignment::Center => self.padding.left,
            },
            LayoutDirection::TopToBottom => match self.align.y {
                Alignment::Start => self.padding.top,
                Alignment::End => self.padding.bottom,
                Alignment::EndReverse => self.padding.bottom,
                Alignment::Center => self.padding.top,
            },
        }
    }

    /// Leading padding across the container's layout axis.
    pub open spec fn spec_padding_in_other_axis(self) -> i64 {
        match self.layout_direction {
            LayoutDirection::TopToBottom => match self.align.x {
                Alignment::Start => self.padding.left,
                Alignment::End => self.padding.right,
                Alignment::EndReverse => self.padding.right,
                Alignment::Center => self.padding.left,
            },
            LayoutDirection::LeftToRight => match self.align.y {
                Alignment::Start => self.padding.top,
                Alignment::End => self.padding.bottom,
                Alignment::EndReverse => self.padding.bottom,
                Alignment::Center => self.padding.top,
            },
        }
    }

    pub fn padding_in_other_axis(&self) -> (r: i64)
        ensures
            r == self.spec_padding_in_other_axis(),
    {
        match self.layout_direction {
            LayoutDirection::TopToBottom => match self.align.x {
                Alignment::Start => self.padding.left,
                Alignment::End => self.padding.right,
                Alignment::EndReverse => self.padding.right,
                Alignment::Center => self.padding.left,
            },
            LayoutDirection::LeftToRight => match self.align.y {
                Alignment::Start => self.padding.top,
                Alignment::End => self.padding.bottom,
                Alignment::EndReverse => self.padding.bottom,
                Alignment::Center => self.padding.top,
            },
        }
    }
}

/// Overriding a base with the same partial twice changes nothing beyond the
/// first application: every `Some` field wins both times with the same value,
/// and every `None` field never touches the base.
pub proof fn lemma_merge_idempotent(base: ContainerConfig, other: PartialContainerConfig)
    ensures
        spec_merge(spec_merge(base, other), other) == spec_merge(base, other),
{
}

/// Two partial records are disjoint when no field is set in both.
pub open spec fn disjoint_partials(a: PartialContainerConfig, b: PartialContainerConfig) -> bool {
    &&& !(a.sizing is Some && b.sizing is Some)
    &&& !(a.background_color is Some && b.background_color is Some)
    &&& !(a.padding is Some && b.padding is Some)
    &&& !(a.layout_direction is Some && b.layout_direction is Some)
    &&& !(a.child_gap is Some && b.child_gap is Some)
    &&& !(a.align is Some && b.align is Some)
    &&& !(a.border is Some && b.border is Some)
    &&& !(a.corner_radius is Some && b.corner_radius is Some)
    &&& !(a.floating is Some && b.floating is Some)
    &&& !(a.scroll is Some && b.scroll is Some)
    &&& !(a.pointer_capture is Some && b.pointer_capture is Some)
    &&& !(a.focusable is Some && b.focusable is Some)
}

/// Merging two disjoint partial records onto a base gives the same result in
/// either order: each field is decided by the one partial that sets it.
pub proof fn lemma_merge_disjoint_commutes(
    base: ContainerConfig,
    a: PartialContainerConfig,
    b: PartialContainerConfig,
)
    requires
        disjoint_partials(a, b),
    ensures
        spec_merge(spec_merge(base, a), b) == spec_merge(spec_merge(base, b), a),
{
}

impl Config for ContainerConfig {
    type PartialConfig = PartialContainerConfig;

    fn merge(&self, other: PartialContainerConfig) -> ContainerConfig {
        ContainerConfig::merge(self, other)
    }
}

/// A container element: an optional caller-supplied identifier plus its
/// style record.
#[derive(Debug)]
pub struct ContainerElement {
    pub id: Option<String>,
    pub config: ContainerConfig,
}

impl ContainerElement {
    pub fn new(config: ContainerConfig, id: Option<String>) -> (r: Self)
        ensures
            r == (ContainerElement { id, config }),
    {
        ContainerElement { config, id }
    }

    pub fn config(&self) -> (r: &ContainerConfig)
        ensures
            r == self.config,
    {
        &self.config
    }

    pub fn id(&self) -> (r: Option<&String>)
        ensures
            r is Some <==> self.id is Some,
            r is Some ==> r->0 == &self.id->0,
    {
        self.id.as_ref()
    }
}

impl Clone for ContainerElement {
    fn clone(&self) -> (r: Self)
        ensures
            r == *self,
    {
        ContainerElement {
            id: match &self.id {
                Some(s) => Some(s.clone()),
                None => None,
            },
            config: self.config,
        }
    }
}

} // verus!
