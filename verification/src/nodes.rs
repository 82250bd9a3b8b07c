//! The nodes.

pub mod bounds_laws;
pub mod carving_laws;
pub mod export;
pub mod export_exr;
pub mod export_r16;
pub mod expression;
pub mod falloff;
pub mod fbm;
pub mod flow;
pub mod flow_droplet;
pub mod flow_harmonic;
pub mod flow_select;
pub mod flow_water;
pub mod frequency_split;
pub mod gradient;
pub mod grow;
pub mod height;
pub mod histogram_scan;
pub mod hybrid;
pub mod hydraulic;
pub mod import;
pub mod invert;
pub mod levels;
pub mod mask;
pub mod material;
pub mod normalize;
pub mod null;
pub mod occlusion;
pub mod occlusion_laws;
pub mod paint;
pub mod polygon;
pub mod radial;
pub mod rain_laws;
pub mod rect;
pub mod ring;
pub mod rivers;
pub mod sculpt;
pub mod slope;
pub mod stream;
pub mod terrace;
pub mod thermal;
pub mod variable_laws;
pub mod warp;
