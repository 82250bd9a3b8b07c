//! The English display strings, sorted by key.
//!
//! A node or category holds only ids; the words live here, keyed by convention
//! (`node-<type_id>`, `node-<type_id>-desc`, `category-<id>`, `param-<name>`,
//! `param-<type_id>-<name>`, ...).
use vstd::prelude::*;

verus! {

/// The number of display strings.
pub const CATALOG_LEN: usize = 140;

/// Keys and their strings.
pub const CATALOG: [(&'static str, &'static str); 140] = [
    (
        "category-adjust",
        "Adjust",
    ),
    (
        "category-combine",
        "Combine",
    ),
    (
        "category-filter",
        "Filters",
    ),
    (
        "category-generator",
        "Generators",
    ),
    (
        "category-geology",
        "Geology",
    ),
    (
        "category-output",
        "Outputs",
    ),
    (
        "category-selector",
        "Selectors",
    ),
    (
        "category-utility",
        "Utility",
    ),
    (
        "node-endpoint.export",
        "Export PNG",
    ),
    (
        "node-endpoint.export-desc",
        "Writes the height layer to a 16-bit grayscale PNG.",
    ),
    (
        "node-endpoint.export_exr",
        "Export EXR",
    ),
    (
        "node-endpoint.export_exr-desc",
        "Writes the height layer to a 32-bit float EXR: lossless, and can bake absolute elevation in meters (height x world height) so the file is self-describing.",
    ),
    (
        "node-endpoint.export_r16",
        "Export R16",
    ),
    (
        "node-endpoint.export_r16-desc",
        "Writes the height layer to a raw 16-bit little-endian .r16 file, Unreal's other native heightmap format. Same range mapping as the PNG, no header.",
    ),
    (
        "node-generator.billow",
        "Billow Noise",
    ),
    (
        "node-generator.billow-desc",
        "Puffy, rounded mounds and dunes, the rounded inverse of ridged noise.",
    ),
    (
        "node-generator.cellular_bumps",
        "Cellular Bumps",
    ),
    (
        "node-generator.cellular_bumps-desc",
        "Worley noise as cones peaking at scattered points: rock piles, bumps, and scales.",
    ),
    (
        "node-generator.cellular_cracks",
        "Cellular Cracks",
    ),
    (
        "node-generator.cellular_cracks-desc",
        "Worley cell-edge network: cracks, fractures, dried mud, and rocky cell walls.",
    ),
    (
        "node-generator.cellular_regions",
        "Cellular Regions",
    ),
    (
        "node-generator.cellular_regions-desc",
        "Worley cells as flat, discrete regions (plates, zones) to shape or scatter.",
    ),
    (
        "node-generator.constant",
        "Constant",
    ),
    (
        "node-generator.constant-desc",
        "A flat field at a chosen [0, 1] greyscale value: a fixed level to blend against, offset or scale with, threshold, or use as a uniform control field.",
    ),
    (
        "node-generator.falloff",
        "Radial Falloff",
    ),
    (
        "node-generator.falloff-desc",
        "A linear radial distance ramp (0 at the center, 1 at the radius): feed a Curve to draw any radial cross-section, a dome, crater, caldera, or terraces.",
    ),
    (
        "node-generator.fbm",
        "fBm Noise",
    ),
    (
        "node-generator.fbm-desc",
        "Fractional Brownian motion of Perlin noise.",
    ),
    (
        "node-generator.flow",
        "Flow Noise",
    ),
    (
        "node-generator.flow-desc",
        "Noise warped along divergence-free curl streamlines, for a swirly, marbled, fluid look.",
    ),
    (
        "node-generator.gradient",
        "Gradient",
    ),
    (
        "node-generator.gradient-desc",
        "A smooth directional ramp (0 to 1 across a band): the non-centered envelope for a coast-to-highland trend or a dune-field direction.",
    ),
    (
        "node-generator.hybrid",
        "Hybrid Multifractal",
    ),
    (
        "node-generator.hybrid-desc",
        "Realistic plains-to-mountains terrain in one node: roughness scales with altitude, so valleys stay smooth and flat while peaks get rough and broken.",
    ),
    (
        "node-generator.import",
        "Import",
    ),
    (
        "node-generator.import-desc",
        "Loads a heightmap image as a field, placed by offset, rotation, and scale.",
    ),
    (
        "node-generator.paint",
        "Paint",
    ),
    (
        "node-generator.paint-desc",
        "A hand-painted [0, 1] selection, brushed on the 2D map or 3D surface.",
    ),
    (
        "node-generator.polygon",
        "Polygon",
    ),
    (
        "node-generator.polygon-desc",
        "A flat-topped regular polygon with soft flanks.",
    ),
    (
        "node-generator.radial",
        "Radial Gradient",
    ),
    (
        "node-generator.radial-desc",
        "A smooth radial dome (1 at the center, 0 at the radius): an envelope to multiply with detail, or shape downstream with a Curve.",
    ),
    (
        "node-generator.rect",
        "Rectangle",
    ),
    (
        "node-generator.rect-desc",
        "A flat-topped rectangular footprint with soft, rounded flanks.",
    ),
    (
        "node-generator.ridged",
        "Ridged Noise",
    ),
    (
        "node-generator.ridged-desc",
        "Ridged multifractal noise, with sharp mountain ridgelines.",
    ),
    (
        "node-generator.ring",
        "Ring",
    ),
    (
        "node-generator.ring-desc",
        "A smooth circular ridge (1 on the radius, 0 on each flank): the envelope for a crater rim, caldera wall, or atoll.",
    ),
    (
        "node-modifier.aspect",
        "Aspect",
    ),
    (
        "node-modifier.aspect-desc",
        "Selects slopes facing a compass direction: high where the terrain faces the direction, softening over the falloff.",
    ),
    (
        "node-modifier.blend",
        "Blend",
    ),
    (
        "node-modifier.blend-desc",
        "Composites two fields by a mode (normal, add, subtract, multiply, max, min, difference) eased in by opacity.",
    ),
    (
        "node-modifier.blur",
        "Blur",
    ),
    (
        "node-modifier.blur-desc",
        "Gaussian-blurs the height layer by a world-unit radius (the scale knob for derived selectors, and feathers masks).",
    ),
    (
        "node-modifier.clamp",
        "Clamp",
    ),
    (
        "node-modifier.clamp-desc",
        "Hard-clamps the height layer into [min, max]: caps overshoots, floors basins, or bounds a value.",
    ),
    (
        "node-modifier.coastal",
        "Coastal",
    ),
    (
        "node-modifier.coastal-desc",
        "Reshapes the shore into a beach-and-bluff bevel at the world sea level, fading over a width in metres.",
    ),
    (
        "node-modifier.curvature",
        "Curvature",
    ),
    (
        "node-modifier.curvature-desc",
        "Selects convex (ridges, outcrops) or concave (valleys, hollows) ground from the surface curvature.",
    ),
    (
        "node-modifier.curve",
        "Curve",
    ),
    (
        "node-modifier.curve-desc",
        "Reshapes height through an editable transfer curve.",
    ),
    (
        "node-modifier.directional_blur",
        "Directional Blur",
    ),
    (
        "node-modifier.directional_blur-desc",
        "Smooths the height layer along or across a guide direction, steered by the slope or a flow field.",
    ),
    (
        "node-modifier.distance",
        "Distance",
    ),
    (
        "node-modifier.distance-desc",
        "Selects a band around a height contour by true distance, fading over a range in metres.",
    ),
    (
        "node-modifier.expression",
        "Expression",
    ),
    (
        "node-modifier.expression-desc",
        "A per-cell math formula over x, y, and the input layers: the escape hatch for custom math.",
    ),
    (
        "node-modifier.frequency_split",
        "Frequency Split",
    ),
    (
        "node-modifier.frequency_split-desc",
        "Splits the height into a low-frequency band and the high-frequency residual.",
    ),
    (
        "node-modifier.height",
        "Height",
    ),
    (
        "node-modifier.height-desc",
        "Selects a band of elevation: high where the normalized height is within min..max, softening over the falloff.",
    ),
    (
        "node-modifier.histogram_scan",
        "Histogram-Scan",
    ),
    (
        "node-modifier.histogram_scan-desc",
        "Windows a range of input values into a crisp [0, 1] mask, set by position, width, and a soft falloff.",
    ),
    (
        "node-modifier.hydraulic_erosion",
        "Hydraulic Erosion",
    ),
    (
        "node-modifier.hydraulic_erosion-desc",
        "Water carving the terrain, simulated as rain droplets that cut rills and deposit sediment.",
    ),
    (
        "node-modifier.invert",
        "Invert",
    ),
    (
        "node-modifier.invert-desc",
        "Flips the height layer (1 - height).",
    ),
    (
        "node-modifier.levels",
        "Levels",
    ),
    (
        "node-modifier.levels-desc",
        "Rescales the height range: stretch an input window to full, bias the midtones with gamma, and map into an output window.",
    ),
    (
        "node-modifier.normalize",
        "Normalize",
    ),
    (
        "node-modifier.normalize-desc",
        "Fits the height layer's actual min-max to [0, 1], pulling a raw or out-of-range field back into the working range.",
    ),
    (
        "node-modifier.null",
        "Null",
    ),
    (
        "node-modifier.null-desc",
        "Passes the field through unchanged: a point to view, reroute, or anchor wiring.",
    ),
    (
        "node-modifier.occlusion",
        "Occlusion",
    ),
    (
        "node-modifier.occlusion-desc",
        "Ambient-occlusion / sky-view measure: high in crevices and valley floors hemmed in by higher ground, low on open peaks and flats.",
    ),
    (
        "node-modifier.sculpt",
        "Sculpt",
    ),
    (
        "node-modifier.sculpt-desc",
        "Sculpt terrain by brushing height onto it: paint raises, erase lowers, and overlapping strokes build up.",
    ),
    (
        "node-modifier.slope",
        "Slope",
    ),
    (
        "node-modifier.slope-desc",
        "Selects a band of steepness: high where the slope angle is within min..max degrees, softening over the falloff.",
    ),
    (
        "node-modifier.stream_erosion",
        "Stream Erosion",
    ),
    (
        "node-modifier.stream_erosion-desc",
        "Carves drainage networks from flow accumulation; outputs the river/flow map.",
    ),
    (
        "node-modifier.terrace",
        "Terrace",
    ),
    (
        "node-modifier.terrace-desc",
        "Quantizes the height into stepped bands: flat treads joined by risers, for strata, benches, and mesa forms.",
    ),
    (
        "node-modifier.thermal_erosion",
        "Thermal Erosion",
    ),
    (
        "node-modifier.thermal_erosion-desc",
        "Relaxes slopes steeper than the talus angle toward repose.",
    ),
    (
        "node-modifier.warp",
        "Warp",
    ),
    (
        "node-modifier.warp-desc",
        "Domain warp: pushes the height layer sideways by a noise field so straight features wander and regular shapes turn natural.",
    ),
    (
        "node-subgraph",
        "Subgraph",
    ),
    (
        "node-subgraph-desc",
        "A node holding an inner graph; dive in to build it, its ports set by Input/Output nodes.",
    ),
    (
        "node-subgraph.input",
        "Input",
    ),
    (
        "node-subgraph.input-desc",
        "Marks a field a subgraph takes in: each one becomes an input port on the container.",
    ),
    (
        "node-subgraph.output",
        "Output",
    ),
    (
        "node-subgraph.output-desc",
        "Marks a field a subgraph hands out: each one becomes an output port on the container.",
    ),
    (
        "paint-mode-neg-generator.paint",
        "Erase",
    ),
    (
        "paint-mode-neg-modifier.sculpt",
        "Lower",
    ),
    (
        "paint-mode-pos-generator.paint",
        "Paint",
    ),
    (
        "paint-mode-pos-modifier.sculpt",
        "Raise",
    ),
    (
        "paint-verb-generator.paint",
        "Paint",
    ),
    (
        "paint-verb-modifier.sculpt",
        "Sculpt",
    ),
    (
        "param-endpoint.export_exr-height_units",
        "Height Units",
    ),
    (
        "param-endpoint.export_exr-height_units-desc",
        "Whether height is written as the normalized [0, 1] value or scaled to absolute metres by World Height.",
    ),
    (
        "param-frequency",
        "Frequency",
    ),
    (
        "param-frequency-desc",
        "Sets the feature size of the noise; higher values pack in smaller, denser features.",
    ),
    (
        "param-gain",
        "Gain",
    ),
    (
        "param-gain-desc",
        "How much each finer octave contributes; higher values make the fine detail rougher and more pronounced.",
    ),
    (
        "param-generator.import-edge",
        "Edge",
    ),
    (
        "param-generator.import-edge-desc",
        "How the field is filled where the placement maps outside the source image.",
    ),
    (
        "param-lacunarity",
        "Lacunarity",
    ),
    (
        "param-lacunarity-desc",
        "How much finer each octave is than the one before it; higher values widen the gap between coarse and fine detail.",
    ),
    (
        "param-modifier.blend-mode",
        "Mode",
    ),
    (
        "param-modifier.blend-mode-desc",
        "How the overlay is combined with the base field.",
    ),
    (
        "param-modifier.curvature-mode",
        "Mode",
    ),
    (
        "param-modifier.curvature-mode-desc",
        "Which ground to select: convex (ridges, outcrops) or concave (valleys, hollows).",
    ),
    (
        "param-modifier.directional_blur-direction",
        "Direction",
    ),
    (
        "param-modifier.directional_blur-direction-desc",
        "Whether smoothing runs along the guide direction or across it.",
    ),
    (
        "param-modifier.distance-side",
        "Side",
    ),
    (
        "param-modifier.distance-side-desc",
        "Which side of the contour the band covers: both, only above, or only below.",
    ),
    (
        "param-modifier.histogram_scan-range",
        "Range",
    ),
    (
        "param-modifier.histogram_scan-range-desc",
        "Whether the window scans the input's actual range (Auto) or the fixed [0, 1] range (Fixed).",
    ),
    (
        "param-modifier.terrace-range",
        "Range",
    ),
    (
        "param-modifier.terrace-range-desc",
        "Whether the bands span the terrain's actual height (Auto) or sit at fixed absolute elevations (Fixed).",
    ),
    (
        "param-octaves",
        "Octaves",
    ),
    (
        "param-octaves-desc",
        "The number of noise layers summed together; more octaves add finer detail.",
    ),
    (
        "param-offset_x",
        "Offset X",
    ),
    (
        "param-offset_x-desc",
        "Pans the noise pattern along the X axis without changing its shape.",
    ),
    (
        "param-offset_y",
        "Offset Y",
    ),
    (
        "param-offset_y-desc",
        "Pans the noise pattern along the Y axis without changing its shape.",
    ),
    (
        "param-seed",
        "Seed",
    ),
    (
        "param-seed-desc",
        "The random seed; changing it regenerates a different variation of the same pattern.",
    ),
];

/// The key of entry `i`.
#[verifier::opaque]
pub open spec fn key_at(i: int) -> Seq<char> {
    CATALOG@[i].0@
}

/// The string of entry `i`.
#[verifier::opaque]
pub open spec fn string_at(i: int) -> Seq<char> {
    CATALOG@[i].1@
}

/// Text `a` sorts before text `b`, which differ first at position `k`.
pub open spec fn sorts_before_at(a: Seq<char>, b: Seq<char>, k: int) -> bool {
    &&& 0 <= k <= a.len()
    &&& k < b.len()
    &&& forall|i: int| 0 <= i < k ==> #[trigger] a[i] == #[trigger] b[i]
    &&& k < a.len() ==> a[k] < b[k]
}

/// Text `a` sorts before text `b`.
pub open spec fn sorts_before(a: Seq<char>, b: Seq<char>) -> bool {
    exists|k: int| sorts_before_at(a, b, k)
}

/// Sorting before is transitive.
proof fn lemma_sorts_through(a: Seq<char>, b: Seq<char>, c: Seq<char>)
    requires
        sorts_before(a, b),
        sorts_before(b, c),
    ensures
        sorts_before(a, c),
{
    let j = choose|k: int| sorts_before_at(a, b, k);
    let k = choose|k: int| sorts_before_at(b, c, k);
    let first = if j <= k {
        j
    } else {
        k
    };
    assert forall|i: int| 0 <= i < first implies #[trigger] a[i] == #[trigger] c[i] by {
        assert(a[i] == b[i]);
        assert(b[i] == c[i]);
    }
    if k < j {
        assert(a[k] == b[k]);
    } else if j < k {
        assert(b[j] == c[j]);
    }
    assert(sorts_before_at(a, c, first));
}

/// Entry `i` sorts before the next.
spec fn steps_up(i: int) -> bool {
    sorts_before(key_at(i), key_at(i + 1))
}

/// The entries from `lo` to `hi` each sort before the next.
spec fn sorted_between(lo: int, hi: int) -> bool {
    forall|i: int| lo <= i < hi ==> #[trigger] steps_up(i)
}

proof fn lemma_sorted_from_0()
    ensures
        sorted_between(0, 14),
{
    reveal(key_at);
    reveal_strlit("category-adjust");
    reveal_strlit("category-combine");
    reveal_strlit("category-filter");
    reveal_strlit("category-generator");
    reveal_strlit("category-geology");
    reveal_strlit("category-output");
    reveal_strlit("category-selector");
    reveal_strlit("category-utility");
    reveal_strlit("node-endpoint.export");
    reveal_strlit("node-endpoint.export-desc");
    reveal_strlit("node-endpoint.export_exr");
    reveal_strlit("node-endpoint.export_exr-desc");
    reveal_strlit("node-endpoint.export_r16");
    reveal_strlit("node-endpoint.export_r16-desc");
    reveal_strlit("node-generator.billow");
    assert(sorts_before_at(key_at(0), key_at(1), 9));
    assert(steps_up(0));
    assert(sorts_before_at(key_at(1), key_at(2), 9));
    assert(steps_up(1));
    assert(sorts_before_at(key_at(2), key_at(3), 9));
    assert(steps_up(2));
    assert(sorts_before_at(key_at(3), key_at(4), 11));
    assert(steps_up(3));
    assert(sorts_before_at(key_at(4), key_at(5), 9));
    assert(steps_up(4));
    assert(sorts_before_at(key_at(5), key_at(6), 9));
    assert(steps_up(5));
    assert(sorts_before_at(key_at(6), key_at(7), 9));
    assert(steps_up(6));
    assert(sorts_before_at(key_at(7), key_at(8), 0));
    assert(steps_up(7));
    assert(sorts_before_at(key_at(8), key_at(9), 20));
    assert(steps_up(8));
    assert(sorts_before_at(key_at(9), key_at(10), 20));
    assert(steps_up(9));
    assert(sorts_before_at(key_at(10), key_at(11), 24));
    assert(steps_up(10));
    assert(sorts_before_at(key_at(11), key_at(12), 21));
    assert(steps_up(11));
    assert(sorts_before_at(key_at(12), key_at(13), 24));
    assert(steps_up(12));
    assert(sorts_before_at(key_at(13), key_at(14), 5));
    assert(steps_up(13));
}

proof fn lemma_sorted_from_14()
    ensures
        sorted_between(14, 28),
{
    reveal(key_at);
    reveal_strlit("node-generator.billow");
    reveal_strlit("node-generator.billow-desc");
    reveal_strlit("node-generator.cellular_bumps");
    reveal_strlit("node-generator.cellular_bumps-desc");
    reveal_strlit("node-generator.cellular_cracks");
    reveal_strlit("node-generator.cellular_cracks-desc");
    reveal_strlit("node-generator.cellular_regions");
    reveal_strlit("node-generator.cellular_regions-desc");
    reveal_strlit("node-generator.constant");
    reveal_strlit("node-generator.constant-desc");
    reveal_strlit("node-generator.falloff");
    reveal_strlit("node-generator.falloff-desc");
    reveal_strlit("node-generator.fbm");
    reveal_strlit("node-generator.fbm-desc");
    reveal_strlit("node-generator.flow");
    assert(sorts_before_at(key_at(14), key_at(15), 21));
    assert(steps_up(14));
    assert(sorts_before_at(key_at(15), key_at(16), 15));
    assert(steps_up(15));
    assert(sorts_before_at(key_at(16), key_at(17), 29));
    assert(steps_up(16));
    assert(sorts_before_at(key_at(17), key_at(18), 24));
    assert(steps_up(17));
    assert(sorts_before_at(key_at(18), key_at(19), 30));
    assert(steps_up(18));
    assert(sorts_before_at(key_at(19), key_at(20), 24));
    assert(steps_up(19));
    assert(sorts_before_at(key_at(20), key_at(21), 31));
    assert(steps_up(20));
    assert(sorts_before_at(key_at(21), key_at(22), 16));
    assert(steps_up(21));
    assert(sorts_before_at(key_at(22), key_at(23), 23));
    assert(steps_up(22));
    assert(sorts_before_at(key_at(23), key_at(24), 15));
    assert(steps_up(23));
    assert(sorts_before_at(key_at(24), key_at(25), 22));
    assert(steps_up(24));
    assert(sorts_before_at(key_at(25), key_at(26), 16));
    assert(steps_up(25));
    assert(sorts_before_at(key_at(26), key_at(27), 18));
    assert(steps_up(26));
    assert(sorts_before_at(key_at(27), key_at(28), 16));
    assert(steps_up(27));
}

proof fn lemma_sorted_from_28()
    ensures
        sorted_between(28, 42),
{
    reveal(key_at);
    reveal_strlit("node-generator.flow");
    reveal_strlit("node-generator.flow-desc");
    reveal_strlit("node-generator.gradient");
    reveal_strlit("node-generator.gradient-desc");
    reveal_strlit("node-generator.hybrid");
    reveal_strlit("node-generator.hybrid-desc");
    reveal_strlit("node-generator.import");
    reveal_strlit("node-generator.import-desc");
    reveal_strlit("node-generator.paint");
    reveal_strlit("node-generator.paint-desc");
    reveal_strlit("node-generator.polygon");
    reveal_strlit("node-generator.polygon-desc");
    reveal_strlit("node-generator.radial");
    reveal_strlit("node-generator.radial-desc");
    reveal_strlit("node-generator.rect");
    assert(sorts_before_at(key_at(28), key_at(29), 19));
    assert(steps_up(28));
    assert(sorts_before_at(key_at(29), key_at(30), 15));
    assert(steps_up(29));
    assert(sorts_before_at(key_at(30), key_at(31), 23));
    assert(steps_up(30));
    assert(sorts_before_at(key_at(31), key_at(32), 15));
    assert(steps_up(31));
    assert(sorts_before_at(key_at(32), key_at(33), 21));
    assert(steps_up(32));
    assert(sorts_before_at(key_at(33), key_at(34), 15));
    assert(steps_up(33));
    assert(sorts_before_at(key_at(34), key_at(35), 21));
    assert(steps_up(34));
    assert(sorts_before_at(key_at(35), key_at(36), 15));
    assert(steps_up(35));
    assert(sorts_before_at(key_at(36), key_at(37), 20));
    assert(steps_up(36));
    assert(sorts_before_at(key_at(37), key_at(38), 16));
    assert(steps_up(37));
    assert(sorts_before_at(key_at(38), key_at(39), 22));
    assert(steps_up(38));
    assert(sorts_before_at(key_at(39), key_at(40), 15));
    assert(steps_up(39));
    assert(sorts_before_at(key_at(40), key_at(41), 21));
    assert(steps_up(40));
    assert(sorts_before_at(key_at(41), key_at(42), 16));
    assert(steps_up(41));
}

proof fn lemma_sorted_from_42()
    ensures
        sorted_between(42, 56),
{
    reveal(key_at);
    reveal_strlit("node-generator.rect");
    reveal_strlit("node-generator.rect-desc");
    reveal_strlit("node-generator.ridged");
    reveal_strlit("node-generator.ridged-desc");
    reveal_strlit("node-generator.ring");
    reveal_strlit("node-generator.ring-desc");
    reveal_strlit("node-modifier.aspect");
    reveal_strlit("node-modifier.aspect-desc");
    reveal_strlit("node-modifier.blend");
    reveal_strlit("node-modifier.blend-desc");
    reveal_strlit("node-modifier.blur");
    reveal_strlit("node-modifier.blur-desc");
    reveal_strlit("node-modifier.clamp");
    reveal_strlit("node-modifier.clamp-desc");
    reveal_strlit("node-modifier.coastal");
    assert(sorts_before_at(key_at(42), key_at(43), 19));
    assert(steps_up(42));
    assert(sorts_before_at(key_at(43), key_at(44), 16));
    assert(steps_up(43));
    assert(sorts_before_at(key_at(44), key_at(45), 21));
    assert(steps_up(44));
    assert(sorts_before_at(key_at(45), key_at(46), 17));
    assert(steps_up(45));
    assert(sorts_before_at(key_at(46), key_at(47), 19));
    assert(steps_up(46));
    assert(sorts_before_at(key_at(47), key_at(48), 5));
    assert(steps_up(47));
    assert(sorts_before_at(key_at(48), key_at(49), 20));
    assert(steps_up(48));
    assert(sorts_before_at(key_at(49), key_at(50), 14));
    assert(steps_up(49));
    assert(sorts_before_at(key_at(50), key_at(51), 19));
    assert(steps_up(50));
    assert(sorts_before_at(key_at(51), key_at(52), 16));
    assert(steps_up(51));
    assert(sorts_before_at(key_at(52), key_at(53), 18));
    assert(steps_up(52));
    assert(sorts_before_at(key_at(53), key_at(54), 14));
    assert(steps_up(53));
    assert(sorts_before_at(key_at(54), key_at(55), 19));
    assert(steps_up(54));
    assert(sorts_before_at(key_at(55), key_at(56), 15));
    assert(steps_up(55));
}

proof fn lemma_sorted_from_56()
    ensures
        sorted_between(56, 70),
{
    reveal(key_at);
    reveal_strlit("node-modifier.coastal");
    reveal_strlit("node-modifier.coastal-desc");
    reveal_strlit("node-modifier.curvature");
    reveal_strlit("node-modifier.curvature-desc");
    reveal_strlit("node-modifier.curve");
    reveal_strlit("node-modifier.curve-desc");
    reveal_strlit("node-modifier.directional_blur");
    reveal_strlit("node-modifier.directional_blur-desc");
    reveal_strlit("node-modifier.distance");
    reveal_strlit("node-modifier.distance-desc");
    reveal_strlit("node-modifier.expression");
    reveal_strlit("node-modifier.expression-desc");
    reveal_strlit("node-modifier.frequency_split");
    reveal_strlit("node-modifier.frequency_split-desc");
    reveal_strlit("node-modifier.height");
    assert(sorts_before_at(key_at(56), key_at(57), 21));
    assert(steps_up(56));
    assert(sorts_before_at(key_at(57), key_at(58), 15));
    assert(steps_up(57));
    assert(sorts_before_at(key_at(58), key_at(59), 23));
    assert(steps_up(58));
    assert(sorts_before_at(key_at(59), key_at(60), 18));
    assert(steps_up(59));
    assert(sorts_before_at(key_at(60), key_at(61), 19));
    assert(steps_up(60));
    assert(sorts_before_at(key_at(61), key_at(62), 14));
    assert(steps_up(61));
    assert(sorts_before_at(key_at(62), key_at(63), 30));
    assert(steps_up(62));
    assert(sorts_before_at(key_at(63), key_at(64), 16));
    assert(steps_up(63));
    assert(sorts_before_at(key_at(64), key_at(65), 22));
    assert(steps_up(64));
    assert(sorts_before_at(key_at(65), key_at(66), 14));
    assert(steps_up(65));
    assert(sorts_before_at(key_at(66), key_at(67), 24));
    assert(steps_up(66));
    assert(sorts_before_at(key_at(67), key_at(68), 14));
    assert(steps_up(67));
    assert(sorts_before_at(key_at(68), key_at(69), 29));
    assert(steps_up(68));
    assert(sorts_before_at(key_at(69), key_at(70), 14));
    assert(steps_up(69));
}

proof fn lemma_sorted_from_70()
    ensures
        sorted_between(70, 84),
{
    reveal(key_at);
    reveal_strlit("node-modifier.height");
    reveal_strlit("node-modifier.height-desc");
    reveal_strlit("node-modifier.histogram_scan");
    reveal_strlit("node-modifier.histogram_scan-desc");
    reveal_strlit("node-modifier.hydraulic_erosion");
    reveal_strlit("node-modifier.hydraulic_erosion-desc");
    reveal_strlit("node-modifier.invert");
    reveal_strlit("node-modifier.invert-desc");
    reveal_strlit("node-modifier.levels");
    reveal_strlit("node-modifier.levels-desc");
    reveal_strlit("node-modifier.normalize");
    reveal_strlit("node-modifier.normalize-desc");
    reveal_strlit("node-modifier.null");
    reveal_strlit("node-modifier.null-desc");
    reveal_strlit("node-modifier.occlusion");
    assert(sorts_before_at(key_at(70), key_at(71), 20));
    assert(steps_up(70));
    assert(sorts_before_at(key_at(71), key_at(72), 15));
    assert(steps_up(71));
    assert(sorts_before_at(key_at(72), key_at(73), 28));
    assert(steps_up(72));
    assert(sorts_before_at(key_at(73), key_at(74), 15));
    assert(steps_up(73));
    assert(sorts_before_at(key_at(74), key_at(75), 31));
    assert(steps_up(74));
    assert(sorts_before_at(key_at(75), key_at(76), 14));
    assert(steps_up(75));
    assert(sorts_before_at(key_at(76), key_at(77), 20));
    assert(steps_up(76));
    assert(sorts_before_at(key_at(77), key_at(78), 14));
    assert(steps_up(77));
    assert(sorts_before_at(key_at(78), key_at(79), 20));
    assert(steps_up(78));
    assert(sorts_before_at(key_at(79), key_at(80), 14));
    assert(steps_up(79));
    assert(sorts_before_at(key_at(80), key_at(81), 23));
    assert(steps_up(80));
    assert(sorts_before_at(key_at(81), key_at(82), 15));
    assert(steps_up(81));
    assert(sorts_before_at(key_at(82), key_at(83), 18));
    assert(steps_up(82));
    assert(sorts_before_at(key_at(83), key_at(84), 14));
    assert(steps_up(83));
}

proof fn lemma_sorted_from_84()
    ensures
        sorted_between(84, 98),
{
    reveal(key_at);
    reveal_strlit("node-modifier.occlusion");
    reveal_strlit("node-modifier.occlusion-desc");
    reveal_strlit("node-modifier.sculpt");
    reveal_strlit("node-modifier.sculpt-desc");
    reveal_strlit("node-modifier.slope");
    reveal_strlit("node-modifier.slope-desc");
    reveal_strlit("node-modifier.stream_erosion");
    reveal_strlit("node-modifier.stream_erosion-desc");
    reveal_strlit("node-modifier.terrace");
    reveal_strlit("node-modifier.terrace-desc");
    reveal_strlit("node-modifier.thermal_erosion");
    reveal_strlit("node-modifier.thermal_erosion-desc");
    reveal_strlit("node-modifier.warp");
    reveal_strlit("node-modifier.warp-desc");
    reveal_strlit("node-subgraph");
    assert(sorts_before_at(key_at(84), key_at(85), 23));
    assert(steps_up(84));
    assert(sorts_before_at(key_at(85), key_at(86), 14));
    assert(steps_up(85));
    assert(sorts_before_at(key_at(86), key_at(87), 20));
    assert(steps_up(86));
    assert(sorts_before_at(key_at(87), key_at(88), 15));
    assert(steps_up(87));
    assert(sorts_before_at(key_at(88), key_at(89), 19));
    assert(steps_up(88));
    assert(sorts_before_at(key_at(89), key_at(90), 15));
    assert(steps_up(89));
    assert(sorts_before_at(key_at(90), key_at(91), 28));
    assert(steps_up(90));
    assert(sorts_before_at(key_at(91), key_at(92), 14));
    assert(steps_up(91));
    assert(sorts_before_at(key_at(92), key_at(93), 21));
    assert(steps_up(92));
    assert(sorts_before_at(key_at(93), key_at(94), 15));
    assert(steps_up(93));
    assert(sorts_before_at(key_at(94), key_at(95), 29));
    assert(steps_up(94));
    assert(sorts_before_at(key_at(95), key_at(96), 14));
    assert(steps_up(95));
    assert(sorts_before_at(key_at(96), key_at(97), 18));
    assert(steps_up(96));
    assert(sorts_before_at(key_at(97), key_at(98), 5));
    assert(steps_up(97));
}

proof fn lemma_sorted_from_98()
    ensures
        sorted_between(98, 112),
{
    reveal(key_at);
    reveal_strlit("node-subgraph");
    reveal_strlit("node-subgraph-desc");
    reveal_strlit("node-subgraph.input");
    reveal_strlit("node-subgraph.input-desc");
    reveal_strlit("node-subgraph.output");
    reveal_strlit("node-subgraph.output-desc");
    reveal_strlit("paint-mode-neg-generator.paint");
    reveal_strlit("paint-mode-neg-modifier.sculpt");
    reveal_strlit("paint-mode-pos-generator.paint");
    reveal_strlit("paint-mode-pos-modifier.sculpt");
    reveal_strlit("paint-verb-generator.paint");
    reveal_strlit("paint-verb-modifier.sculpt");
    reveal_strlit("param-endpoint.export_exr-height_units");
    reveal_strlit("param-endpoint.export_exr-height_units-desc");
    reveal_strlit("param-frequency");
    assert(sorts_before_at(key_at(98), key_at(99), 13));
    assert(steps_up(98));
    assert(sorts_before_at(key_at(99), key_at(100), 13));
    assert(steps_up(99));
    assert(sorts_before_at(key_at(100), key_at(101), 19));
    assert(steps_up(100));
    assert(sorts_before_at(key_at(101), key_at(102), 14));
    assert(steps_up(101));
    assert(sorts_before_at(key_at(102), key_at(103), 20));
    assert(steps_up(102));
    assert(sorts_before_at(key_at(103), key_at(104), 0));
    assert(steps_up(103));
    assert(sorts_before_at(key_at(104), key_at(105), 15));
    assert(steps_up(104));
    assert(sorts_before_at(key_at(105), key_at(106), 11));
    assert(steps_up(105));
    assert(sorts_before_at(key_at(106), key_at(107), 15));
    assert(steps_up(106));
    assert(sorts_before_at(key_at(107), key_at(108), 6));
    assert(steps_up(107));
    assert(sorts_before_at(key_at(108), key_at(109), 11));
    assert(steps_up(108));
    assert(sorts_before_at(key_at(109), key_at(110), 2));
    assert(steps_up(109));
    assert(sorts_before_at(key_at(110), key_at(111), 38));
    assert(steps_up(110));
    assert(sorts_before_at(key_at(111), key_at(112), 6));
    assert(steps_up(111));
}

proof fn lemma_sorted_from_112()
    ensures
        sorted_between(112, 126),
{
    reveal(key_at);
    reveal_strlit("param-frequency");
    reveal_strlit("param-frequency-desc");
    reveal_strlit("param-gain");
    reveal_strlit("param-gain-desc");
    reveal_strlit("param-generator.import-edge");
    reveal_strlit("param-generator.import-edge-desc");
    reveal_strlit("param-lacunarity");
    reveal_strlit("param-lacunarity-desc");
    reveal_strlit("param-modifier.blend-mode");
    reveal_strlit("param-modifier.blend-mode-desc");
    reveal_strlit("param-modifier.curvature-mode");
    reveal_strlit("param-modifier.curvature-mode-desc");
    reveal_strlit("param-modifier.directional_blur-direction");
    reveal_strlit("param-modifier.directional_blur-direction-desc");
    reveal_strlit("param-modifier.distance-side");
    assert(sorts_before_at(key_at(112), key_at(113), 15));
    assert(steps_up(112));
    assert(sorts_before_at(key_at(113), key_at(114), 6));
    assert(steps_up(113));
    assert(sorts_before_at(key_at(114), key_at(115), 10));
    assert(steps_up(114));
    assert(sorts_before_at(key_at(115), key_at(116), 7));
    assert(steps_up(115));
    assert(sorts_before_at(key_at(116), key_at(117), 27));
    assert(steps_up(116));
    assert(sorts_before_at(key_at(117), key_at(118), 6));
    assert(steps_up(117));
    assert(sorts_before_at(key_at(118), key_at(119), 16));
    assert(steps_up(118));
    assert(sorts_before_at(key_at(119), key_at(120), 6));
    assert(steps_up(119));
    assert(sorts_before_at(key_at(120), key_at(121), 25));
    assert(steps_up(120));
    assert(sorts_before_at(key_at(121), key_at(122), 15));
    assert(steps_up(121));
    assert(sorts_before_at(key_at(122), key_at(123), 29));
    assert(steps_up(122));
    assert(sorts_before_at(key_at(123), key_at(124), 15));
    assert(steps_up(123));
    assert(sorts_before_at(key_at(124), key_at(125), 41));
    assert(steps_up(124));
    assert(sorts_before_at(key_at(125), key_at(126), 17));
    assert(steps_up(125));
}

proof fn lemma_sorted_from_126()
    ensures
        sorted_between(126, 139),
{
    reveal(key_at);
    reveal_strlit("param-modifier.distance-side");
    reveal_strlit("param-modifier.distance-side-desc");
    reveal_strlit("param-modifier.histogram_scan-range");
    reveal_strlit("param-modifier.histogram_scan-range-desc");
    reveal_strlit("param-modifier.terrace-range");
    reveal_strlit("param-modifier.terrace-range-desc");
    reveal_strlit("param-octaves");
    reveal_strlit("param-octaves-desc");
    reveal_strlit("param-offset_x");
    reveal_strlit("param-offset_x-desc");
    reveal_strlit("param-offset_y");
    reveal_strlit("param-offset_y-desc");
    reveal_strlit("param-seed");
    reveal_strlit("param-seed-desc");
    assert(sorts_before_at(key_at(126), key_at(127), 28));
    assert(steps_up(126));
    assert(sorts_before_at(key_at(127), key_at(128), 15));
    assert(steps_up(127));
    assert(sorts_before_at(key_at(128), key_at(129), 35));
    assert(steps_up(128));
    assert(sorts_before_at(key_at(129), key_at(130), 15));
    assert(steps_up(129));
    assert(sorts_before_at(key_at(130), key_at(131), 28));
    assert(steps_up(130));
    assert(sorts_before_at(key_at(131), key_at(132), 6));
    assert(steps_up(131));
    assert(sorts_before_at(key_at(132), key_at(133), 13));
    assert(steps_up(132));
    assert(sorts_before_at(key_at(133), key_at(134), 7));
    assert(steps_up(133));
    assert(sorts_before_at(key_at(134), key_at(135), 14));
    assert(steps_up(134));
    assert(sorts_before_at(key_at(135), key_at(136), 13));
    assert(steps_up(135));
    assert(sorts_before_at(key_at(136), key_at(137), 14));
    assert(steps_up(136));
    assert(sorts_before_at(key_at(137), key_at(138), 6));
    assert(steps_up(137));
    assert(sorts_before_at(key_at(138), key_at(139), 10));
    assert(steps_up(138));
}

/// Every entry sorts before those behind it.
proof fn lemma_sorted(i: int, j: int)
    requires
        0 <= i < j < CATALOG_LEN,
    ensures
        sorts_before(key_at(i), key_at(j)),
    decreases j,
{
    lemma_sorted_from_0();
    lemma_sorted_from_14();
    lemma_sorted_from_28();
    lemma_sorted_from_42();
    lemma_sorted_from_56();
    lemma_sorted_from_70();
    lemma_sorted_from_84();
    lemma_sorted_from_98();
    lemma_sorted_from_112();
    lemma_sorted_from_126();
    assert(steps_up(j - 1));
    if i < j - 1 {
        lemma_sorted(i, j - 1);
        lemma_sorts_through(key_at(i), key_at(j - 1), key_at(j));
    }
}

/// No two entries share a key.
pub proof fn law_keys_are_distinct(i: int, j: int)
    requires
        0 <= i < CATALOG_LEN,
        0 <= j < CATALOG_LEN,
        key_at(i) == key_at(j),
    ensures
        i == j,
{
    if i < j {
        lemma_sorted(i, j);
        let k = choose|k: int| sorts_before_at(key_at(i), key_at(j), k);
        assert(sorts_before_at(key_at(i), key_at(j), k));
    } else if j < i {
        lemma_sorted(j, i);
        let k = choose|k: int| sorts_before_at(key_at(j), key_at(i), k);
        assert(sorts_before_at(key_at(j), key_at(i), k));
    }
}

/// Text `s` ends in `tail`.
pub open spec fn ends_with(s: Seq<char>, tail: Seq<char>) -> bool {
    s.len() >= tail.len() && s.skip(s.len() - tail.len()) == tail
}

/// Text `s` starts with `head`.
pub open spec fn starts_with(s: Seq<char>, head: Seq<char>) -> bool {
    s.len() >= head.len() && s.take(head.len() as int) == head
}

/// Entry `i` is a description, or the next entry is its description.
pub open spec fn described(i: int) -> bool {
    ends_with(key_at(i), "-desc"@) || (i + 1 < CATALOG_LEN && key_at(i + 1) == key_at(i) + "-desc"@)
}

proof fn lemma_described_from_110()
    ensures
        forall|i: int| 110 <= i < 116 ==> #[trigger] described(i),
{
    reveal(key_at);
    reveal_strlit("-desc");
    reveal_strlit("param-endpoint.export_exr-height_units");
    reveal_strlit("param-endpoint.export_exr-height_units-desc");
    reveal_strlit("param-frequency");
    reveal_strlit("param-frequency-desc");
    reveal_strlit("param-gain");
    reveal_strlit("param-gain-desc");
    assert(key_at(111) =~= key_at(110) + "-desc"@);
    assert(described(110));
    assert(key_at(111).skip(38) =~= "-desc"@);
    assert(described(111));
    assert(key_at(113) =~= key_at(112) + "-desc"@);
    assert(described(112));
    assert(key_at(113).skip(15) =~= "-desc"@);
    assert(described(113));
    assert(key_at(115) =~= key_at(114) + "-desc"@);
    assert(described(114));
    assert(key_at(115).skip(10) =~= "-desc"@);
    assert(described(115));
}

proof fn lemma_described_from_116()
    ensures
        forall|i: int| 116 <= i < 122 ==> #[trigger] described(i),
{
    reveal(key_at);
    reveal_strlit("-desc");
    reveal_strlit("param-generator.import-edge");
    reveal_strlit("param-generator.import-edge-desc");
    reveal_strlit("param-lacunarity");
    reveal_strlit("param-lacunarity-desc");
    reveal_strlit("param-modifier.blend-mode");
    reveal_strlit("param-modifier.blend-mode-desc");
    assert(key_at(117) =~= key_at(116) + "-desc"@);
    assert(described(116));
    assert(key_at(117).skip(27) =~= "-desc"@);
    assert(described(117));
    assert(key_at(119) =~= key_at(118) + "-desc"@);
    assert(described(118));
    assert(key_at(119).skip(16) =~= "-desc"@);
    assert(described(119));
    assert(key_at(121) =~= key_at(120) + "-desc"@);
    assert(described(120));
    assert(key_at(121).skip(25) =~= "-desc"@);
    assert(described(121));
}

proof fn lemma_described_from_122()
    ensures
        forall|i: int| 122 <= i < 128 ==> #[trigger] described(i),
{
    reveal(key_at);
    reveal_strlit("-desc");
    reveal_strlit("param-modifier.curvature-mode");
    reveal_strlit("param-modifier.curvature-mode-desc");
    reveal_strlit("param-modifier.directional_blur-direction");
    reveal_strlit("param-modifier.directional_blur-direction-desc");
    reveal_strlit("param-modifier.distance-side");
    reveal_strlit("param-modifier.distance-side-desc");
    assert(key_at(123) =~= key_at(122) + "-desc"@);
    assert(described(122));
    assert(key_at(123).skip(29) =~= "-desc"@);
    assert(described(123));
    assert(key_at(125) =~= key_at(124) + "-desc"@);
    assert(described(124));
    assert(key_at(125).skip(41) =~= "-desc"@);
    assert(described(125));
    assert(key_at(127) =~= key_at(126) + "-desc"@);
    assert(described(126));
    assert(key_at(127).skip(28) =~= "-desc"@);
    assert(described(127));
}

proof fn lemma_described_from_128()
    ensures
        forall|i: int| 128 <= i < 134 ==> #[trigger] described(i),
{
    reveal(key_at);
    reveal_strlit("-desc");
    reveal_strlit("param-modifier.histogram_scan-range");
    reveal_strlit("param-modifier.histogram_scan-range-desc");
    reveal_strlit("param-modifier.terrace-range");
    reveal_strlit("param-modifier.terrace-range-desc");
    reveal_strlit("param-octaves");
    reveal_strlit("param-octaves-desc");
    assert(key_at(129) =~= key_at(128) + "-desc"@);
    assert(described(128));
    assert(key_at(129).skip(35) =~= "-desc"@);
    assert(described(129));
    assert(key_at(131) =~= key_at(130) + "-desc"@);
    assert(described(130));
    assert(key_at(131).skip(28) =~= "-desc"@);
    assert(described(131));
    assert(key_at(133) =~= key_at(132) + "-desc"@);
    assert(described(132));
    assert(key_at(133).skip(13) =~= "-desc"@);
    assert(described(133));
}

proof fn lemma_described_from_134()
    ensures
        forall|i: int| 134 <= i < 140 ==> #[trigger] described(i),
{
    reveal(key_at);
    reveal_strlit("-desc");
    reveal_strlit("param-offset_x");
    reveal_strlit("param-offset_x-desc");
    reveal_strlit("param-offset_y");
    reveal_strlit("param-offset_y-desc");
    reveal_strlit("param-seed");
    reveal_strlit("param-seed-desc");
    assert(key_at(135) =~= key_at(134) + "-desc"@);
    assert(described(134));
    assert(key_at(135).skip(14) =~= "-desc"@);
    assert(described(135));
    assert(key_at(137) =~= key_at(136) + "-desc"@);
    assert(described(136));
    assert(key_at(137).skip(14) =~= "-desc"@);
    assert(described(137));
    assert(key_at(139) =~= key_at(138) + "-desc"@);
    assert(described(138));
    assert(key_at(139).skip(10) =~= "-desc"@);
    assert(described(139));
}

/// Every parameter label has a description: the entry of a `param-` key that is not itself a
/// description is followed by the one that describes it.
pub proof fn law_parameter_labels_are_described(i: int)
    requires
        0 <= i < CATALOG_LEN,
        starts_with(key_at(i), "param-"@),
        !ends_with(key_at(i), "-desc"@),
    ensures
        i + 1 < CATALOG_LEN,
        key_at(i + 1) == key_at(i) + "-desc"@,
{
    let last: int = 109;
    reveal_strlit("param-");
    if i <= last {
        let key = key_at(i);
        let head = key.take(6);
        assert(head[0] == key[0] && head[1] == key[1] && head[2] == key[2]);
        assert(key_at(last)[0] == 'p' && key_at(last)[1] == 'a' && key_at(last)[2] == 'i') by {
            reveal(key_at);
            reveal_strlit("paint-verb-modifier.sculpt");
        }
        if i < last {
            lemma_sorted(i, last);
            let k = choose|k: int| sorts_before_at(key, key_at(last), k);
            assert(sorts_before_at(key, key_at(last), k));
            if k > 2 {
                assert(key[2] == key_at(last)[2]);
            }
        }
    } else {
        lemma_described_from_110();
        lemma_described_from_116();
        lemma_described_from_122();
        lemma_described_from_128();
        lemma_described_from_134();
        assert(described(i));
    }
}

} // verus!
