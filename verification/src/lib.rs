//! A terminal dashboard library: a rectangle-splitting layout engine,
//! cell-buffer widgets (paragraph, bar chart, list, canvas), a geographic
//! projection onto a character grid, and the event-loop state machine that
//! turns input and resize events into redraws.

use vstd::prelude::*;

mod app;
mod buffer;
mod canvas;
mod geometry;
mod layout;
mod stat;
mod style;
mod text;
mod widgets;

pub use app::AppEvent;
pub use app::IU5Years;
pub use app::InputKey;
pub use app::LoopAction;
pub use app::University;
pub use app::copy_chars;
pub use app::lemma_render_idempotent;
pub use app::process_events;
pub use app::render_frame;
pub use app::step;
pub use buffer::Buffer;
pub use canvas::Canvas;
pub use canvas::MapResolution;
pub use canvas::Shape;
pub use canvas::lemma_canvas_in_target;
pub use canvas::project;
pub use canvas::world_outline;
pub use geometry::Rect;
pub use layout::Direction;
pub use layout::SizeConstraint;
pub use layout::split;
pub use stat::Stat;
pub use stat::decimal;
pub use style::Cell;
pub use style::Color;
pub use style::Modifier;
pub use style::Style;
pub use widgets::BarChart;
pub use widgets::Block;
pub use widgets::List;
pub use widgets::Paragraph;
pub use widgets::Tabs;
pub use widgets::bar_height;
pub use widgets::lemma_barchart_in_target;
pub use widgets::lemma_list_in_target;
pub use widgets::lemma_paragraph_in_target;
pub use widgets::lemma_tabs_in_target;
pub use text::chars_of;
pub use text::logo;
pub use text::parse_markup;
pub use text::replace_all;
pub use text::uptime;
