//! A retained-data, immediate-mode-declared layout engine: callers describe
//! a tree of boxes and text each frame, the engine resolves pixel positions
//! and sizes through a staged pipeline, and an interaction store tracks
//! hover, click, press and focus against the finished geometry. The sizing
//! stages, the arena the tree is built in, and the interaction pass carry
//! machine-checked contracts.

use vstd::prelude::*;

mod app_ctx;
mod config;
mod container;
mod decimal;
mod element;
mod err;
mod mem;
mod render;
mod state;
mod strutil;
mod geometry;
mod layout;

pub use app_ctx::AppCtx;
pub use app_ctx::GlyphCountMeasurer;
pub use app_ctx::init_h;
pub use app_ctx::init_w;
pub use app_ctx::spec_local_id;
pub use app_ctx::unpack_node;
pub use app_ctx::unpacked_rel;
pub use layout::bounded;
pub use layout::configs_wf;
pub use layout::hovered_ids;
pub use layout::focusables_seen;
pub use layout::spec_inside;
pub use layout::pipeline_ok;
pub use layout::lemma_fit_leaf_resolves_to_padding;
pub use layout::lemma_fixed_sizes_survive;
pub use layout::lemma_grow_even_split;
pub use layout::lemma_grow_cross_axis_within_limits;
pub use layout::lemma_grow_width_within_budget;
pub use app_ctx::lemma_unpacked_bounded;
pub use app_ctx::lemma_unpacked_fixed;
pub use layout::lemma_edge_hit_inclusive;
pub use state::lemma_click_single_frame;
pub use layout::calculate_layout;
pub use layout::check_tree;
pub use layout::collect_hovered;
pub use layout::distribute;
pub use layout::fit_height;
pub use layout::fit_width;
pub use layout::grow_height;
pub use layout::grow_width;
pub use layout::positions;
pub use app_ctx::TextMeasurer;
pub use render::DrawCommand;
pub use render::RlayDrawCommand;
pub use state::AppState;
pub use state::AppStateModel;
pub use state::empty_state_model;
pub use state::st_clicked;
pub use state::st_pressed;
pub use state::st_right_clicked;
pub use state::update_post;
pub use state::ElementState;
pub use state::ElementStateModel;
pub use state::InputState;
pub use state::KeyboardInput;
pub use state::MouseButtonState;
pub use state::MouseInput;
pub use state::RlayKeyboardKey;
pub use err::RlayError;
pub use mem::ArenaElement;
pub use mem::ArenaTree;
pub use mem::ElementNode;
pub use mem::MemError;
pub use mem::Node;
pub use mem::NodeModel;
pub use element::Element;
pub use element::ImageConfig;
pub use element::ImageData;
pub use element::ImageElement;
pub use element::TextElement;
pub use container::disjoint_partials;
pub use container::lemma_merge_disjoint_commutes;
pub use container::lemma_merge_idempotent;
pub use container::spec_merge;
pub use container::Config;
pub use container::ContainerConfig;
pub use container::ContainerElement;
pub use container::PartialContainerConfig;
pub use config::Alignment;
pub use config::BorderConfig;
pub use config::BorderMode;
pub use config::BorderWidth;
pub use config::Color;
pub use config::CorderRadius;
pub use config::FloatingAttachPoint;
pub use config::FloatingAttachPointType;
pub use config::FloatingAttachTo;
pub use config::LayoutAlignment;
pub use config::LayoutDirection;
pub use config::MinMax;
pub use config::Padding;
pub use config::PointerCaptureMode;
pub use config::ScrollConfig;
pub use config::Sizing;
pub use config::SizingAxis;
pub use config::TextAlignment;
pub use config::TextConfig;
pub use config::WrapMode;
pub use config::PERCENT_SCALE;
pub use layout::ElementLayout;
pub use layout::LayoutModel;
pub use geometry::Dimension2D;
pub use geometry::Point2D;
pub use geometry::COORD_MAX;
pub use geometry::DIM_MAX;
