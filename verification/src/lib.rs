//! The terrain nodes of Ymir: what each node declares, and the logic it runs on.
//!
//! Heights and other amounts are the caller's type. Where a node needs arithmetic on them, the
//! caller passes it in as functions (see [`functions`]); the library decides what is read, in which
//! order it is combined, and where it is written. Heights whose order matters travel as integer
//! order keys (see [`keys`]).

pub mod blur;
pub mod blur_laws;
pub mod brush;
pub mod brush_laws;
pub mod catalog;
pub mod catalog_laws;
pub mod decode_cache;
pub mod droplet;
pub mod droplet_laws;
pub mod erosion;
pub mod expr;
pub mod field;
pub mod flow_selector;
pub mod functions;
pub mod grid;
pub mod grid_laws;
pub mod hydrology;
pub mod keys;
pub mod node;
pub mod label_laws;
pub mod nodes;
pub mod noise;
pub mod noise_laws;
pub mod rng;
pub mod sampling_laws;
pub mod selector;
pub mod shaping;
pub mod strings;
pub mod strokes;
pub mod talus;
pub mod talus_laws;
pub mod talus_step_laws;
pub mod text;
pub mod thermal_gpu;
pub mod totals;
pub mod water_laws;
pub mod water_sim;
pub mod water_step_laws;

pub use nodes::export::ExportPng;
pub use nodes::export_exr::ExportExr;
pub use nodes::export_r16::ExportR16;
pub use nodes::expression::Expression;
pub use nodes::falloff::Falloff;
pub use nodes::fbm::Fbm;
pub use nodes::flow::Flow;
pub use nodes::flow_droplet::FlowDroplet;
pub use nodes::flow_harmonic::FlowHarmonic;
pub use nodes::flow_select::FlowSelect;
pub use nodes::flow_water::FlowWater;
pub use nodes::frequency_split::FrequencySplit;
pub use nodes::gradient::Gradient;
pub use nodes::grow::GrowShrink;
pub use nodes::height::Height;
pub use nodes::histogram_scan::HistogramScan;
pub use nodes::hybrid::Hybrid;
pub use nodes::hydraulic::HydraulicErosion;
pub use nodes::import::Import;
pub use nodes::invert::Invert;
pub use nodes::levels::Levels;
pub use nodes::mask::Mask;
pub use nodes::material::Material;
pub use nodes::normalize::Normalize;
pub use nodes::null::Null;
pub use nodes::occlusion::Occlusion;
pub use nodes::paint::Paint;
pub use nodes::polygon::Polygon;
pub use nodes::radial::Radial;
pub use nodes::rect::Rect;
pub use nodes::ring::Ring;
pub use nodes::rivers::Rivers;
pub use nodes::sculpt::Sculpt;
pub use nodes::slope::Slope;
pub use nodes::stream::StreamErosion;
pub use nodes::terrace::Terrace;
pub use nodes::thermal::ThermalErosion;
pub use nodes::warp::Warp;
pub use strings::{prettify_param, resolve_param, tr, ParamSource, ResolvedParam};
