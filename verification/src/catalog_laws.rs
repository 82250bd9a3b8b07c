//! What holds of the whole catalog: its labels are described, and no text is itself a key.
use crate::catalog::{
    described, ends_with, key_at, law_parameter_labels_are_described, starts_with, string_at,
    CATALOG_LEN,
};
use vstd::prelude::*;

verus! {

/// The letter that the key of entry `i` begins with: categories come first, then nodes, then paint
/// modes and parameters.
pub open spec fn initial(i: int) -> char {
    if i < 8 {
        'c'
    } else if i < 104 {
        'n'
    } else {
        'p'
    }
}

/// The key of entry `i` begins as it should, and its text is not empty and begins like no key.
pub open spec fn begins(i: int) -> bool {
    &&& key_at(i).len() > 0
    &&& key_at(i)[0] == initial(i)
    &&& string_at(i).len() > 0
    &&& string_at(i)[0] != 'c'
    &&& string_at(i)[0] != 'n'
    &&& string_at(i)[0] != 'p'
}

proof fn lemma_begins_from_0()
    ensures
        forall|i: int| 0 <= i < 10 ==> #[trigger] begins(i),
{
    reveal(key_at);
    reveal(string_at);
    reveal_strlit("category-adjust");
    reveal_strlit("Adjust");
    reveal_strlit("category-combine");
    reveal_strlit("Combine");
    reveal_strlit("category-filter");
    reveal_strlit("Filters");
    reveal_strlit("category-generator");
    reveal_strlit("Generators");
    reveal_strlit("category-geology");
    reveal_strlit("Geology");
    reveal_strlit("category-output");
    reveal_strlit("Outputs");
    reveal_strlit("category-selector");
    reveal_strlit("Selectors");
    reveal_strlit("category-utility");
    reveal_strlit("Utility");
    reveal_strlit("node-endpoint.export");
    reveal_strlit("Export PNG");
    reveal_strlit("node-endpoint.export-desc");
    reveal_strlit("Writes the height layer to a 16-bit grayscale PNG.");
    assert(begins(0));
    assert(begins(1));
    assert(begins(2));
    assert(begins(3));
    assert(begins(4));
    assert(begins(5));
    assert(begins(6));
    assert(begins(7));
    assert(begins(8));
    assert(begins(9));
}

proof fn lemma_begins_from_10()
    ensures
        forall|i: int| 10 <= i < 20 ==> #[trigger] begins(i),
{
    reveal(key_at);
    reveal(string_at);
    reveal_strlit("node-endpoint.export_exr");
    reveal_strlit("Export EXR");
    reveal_strlit("node-endpoint.export_exr-desc");
    reveal_strlit("Writes the height layer to a 32-bit float EXR: lossless, and can bake absolute elevation in meters (height x world height) so the file is self-describing.");
    reveal_strlit("node-endpoint.export_r16");
    reveal_strlit("Export R16");
    reveal_strlit("node-endpoint.export_r16-desc");
    reveal_strlit("Writes the height layer to a raw 16-bit little-endian .r16 file, Unreal's other native heightmap format. Same range mapping as the PNG, no header.");
    reveal_strlit("node-generator.billow");
    reveal_strlit("Billow Noise");
    reveal_strlit("node-generator.billow-desc");
    reveal_strlit("Puffy, rounded mounds and dunes, the rounded inverse of ridged noise.");
    reveal_strlit("node-generator.cellular_bumps");
    reveal_strlit("Cellular Bumps");
    reveal_strlit("node-generator.cellular_bumps-desc");
    reveal_strlit("Worley noise as cones peaking at scattered points: rock piles, bumps, and scales.");
    reveal_strlit("node-generator.cellular_cracks");
    reveal_strlit("Cellular Cracks");
    reveal_strlit("node-generator.cellular_cracks-desc");
    reveal_strlit("Worley cell-edge network: cracks, fractures, dried mud, and rocky cell walls.");
    assert(begins(10));
    assert(begins(11));
    assert(begins(12));
    assert(begins(13));
    assert(begins(14));
    assert(begins(15));
    assert(begins(16));
    assert(begins(17));
    assert(begins(18));
    assert(begins(19));
}

proof fn lemma_begins_from_20()
    ensures
        forall|i: int| 20 <= i < 30 ==> #[trigger] begins(i),
{
    reveal(key_at);
    reveal(string_at);
    reveal_strlit("node-generator.cellular_regions");
    reveal_strlit("Cellular Regions");
    reveal_strlit("node-generator.cellular_regions-desc");
    reveal_strlit("Worley cells as flat, discrete regions (plates, zones) to shape or scatter.");
    reveal_strlit("node-generator.constant");
    reveal_strlit("Constant");
    reveal_strlit("node-generator.constant-desc");
    reveal_strlit("A flat field at a chosen [0, 1] greyscale value: a fixed level to blend against, offset or scale with, threshold, or use as a uniform control field.");
    reveal_strlit("node-generator.falloff");
    reveal_strlit("Radial Falloff");
    reveal_strlit("node-generator.falloff-desc");
    reveal_strlit("A linear radial distance ramp (0 at the center, 1 at the radius): feed a Curve to draw any radial cross-section, a dome, crater, caldera, or terraces.");
    reveal_strlit("node-generator.fbm");
    reveal_strlit("fBm Noise");
    reveal_strlit("node-generator.fbm-desc");
    reveal_strlit("Fractional Brownian motion of Perlin noise.");
    reveal_strlit("node-generator.flow");
    reveal_strlit("Flow Noise");
    reveal_strlit("node-generator.flow-desc");
    reveal_strlit("Noise warped along divergence-free curl streamlines, for a swirly, marbled, fluid look.");
    assert(begins(20));
    assert(begins(21));
    assert(begins(22));
    assert(begins(23));
    assert(begins(24));
    assert(begins(25));
    assert(begins(26));
    assert(begins(27));
    assert(begins(28));
    assert(begins(29));
}

proof fn lemma_begins_from_30()
    ensures
        forall|i: int| 30 <= i < 40 ==> #[trigger] begins(i),
{
    reveal(key_at);
    reveal(string_at);
    reveal_strlit("node-generator.gradient");
    reveal_strlit("Gradient");
    reveal_strlit("node-generator.gradient-desc");
    reveal_strlit("A smooth directional ramp (0 to 1 across a band): the non-centered envelope for a coast-to-highland trend or a dune-field direction.");
    reveal_strlit("node-generator.hybrid");
    reveal_strlit("Hybrid Multifractal");
    reveal_strlit("node-generator.hybrid-desc");
    reveal_strlit("Realistic plains-to-mountains terrain in one node: roughness scales with altitude, so valleys stay smooth and flat while peaks get rough and broken.");
    reveal_strlit("node-generator.import");
    reveal_strlit("Import");
    reveal_strlit("node-generator.import-desc");
    reveal_strlit("Loads a heightmap image as a field, placed by offset, rotation, and scale.");
    reveal_strlit("node-generator.paint");
    reveal_strlit("Paint");
    reveal_strlit("node-generator.paint-desc");
    reveal_strlit("A hand-painted [0, 1] selection, brushed on the 2D map or 3D surface.");
    reveal_strlit("node-generator.polygon");
    reveal_strlit("Polygon");
    reveal_strlit("node-generator.polygon-desc");
    reveal_strlit("A flat-topped regular polygon with soft flanks.");
    assert(begins(30));
    assert(begins(31));
    assert(begins(32));
    assert(begins(33));
    assert(begins(34));
    assert(begins(35));
    assert(begins(36));
    assert(begins(37));
    assert(begins(38));
    assert(begins(39));
}

proof fn lemma_begins_from_40()
    ensures
        forall|i: int| 40 <= i < 50 ==> #[trigger] begins(i),
{
    reveal(key_at);
    reveal(string_at);
    reveal_strlit("node-generator.radial");
    reveal_strlit("Radial Gradient");
    reveal_strlit("node-generator.radial-desc");
    reveal_strlit("A smooth radial dome (1 at the center, 0 at the radius): an envelope to multiply with detail, or shape downstream with a Curve.");
    reveal_strlit("node-generator.rect");
    reveal_strlit("Rectangle");
    reveal_strlit("node-generator.rect-desc");
    reveal_strlit("A flat-topped rectangular footprint with soft, rounded flanks.");
    reveal_strlit("node-generator.ridged");
    reveal_strlit("Ridged Noise");
    reveal_strlit("node-generator.ridged-desc");
    reveal_strlit("Ridged multifractal noise, with sharp mountain ridgelines.");
    reveal_strlit("node-generator.ring");
    reveal_strlit("Ring");
    reveal_strlit("node-generator.ring-desc");
    reveal_strlit("A smooth circular ridge (1 on the radius, 0 on each flank): the envelope for a crater rim, caldera wall, or atoll.");
    reveal_strlit("node-modifier.aspect");
    reveal_strlit("Aspect");
    reveal_strlit("node-modifier.aspect-desc");
    reveal_strlit("Selects slopes facing a compass direction: high where the terrain faces the direction, softening over the falloff.");
    assert(begins(40));
    assert(begins(41));
    assert(begins(42));
    assert(begins(43));
    assert(begins(44));
    assert(begins(45));
    assert(begins(46));
    assert(begins(47));
    assert(begins(48));
    assert(begins(49));
}

proof fn lemma_begins_from_50()
    ensures
        forall|i: int| 50 <= i < 60 ==> #[trigger] begins(i),
{
    reveal(key_at);
    reveal(string_at);
    reveal_strlit("node-modifier.blend");
    reveal_strlit("Blend");
    reveal_strlit("node-modifier.blend-desc");
    reveal_strlit("Composites two fields by a mode (normal, add, subtract, multiply, max, min, difference) eased in by opacity.");
    reveal_strlit("node-modifier.blur");
    reveal_strlit("Blur");
    reveal_strlit("node-modifier.blur-desc");
    reveal_strlit("Gaussian-blurs the height layer by a world-unit radius (the scale knob for derived selectors, and feathers masks).");
    reveal_strlit("node-modifier.clamp");
    reveal_strlit("Clamp");
    reveal_strlit("node-modifier.clamp-desc");
    reveal_strlit("Hard-clamps the height layer into [min, max]: caps overshoots, floors basins, or bounds a value.");
    reveal_strlit("node-modifier.coastal");
    reveal_strlit("Coastal");
    reveal_strlit("node-modifier.coastal-desc");
    reveal_strlit("Reshapes the shore into a beach-and-bluff bevel at the world sea level, fading over a width in metres.");
    reveal_strlit("node-modifier.curvature");
    reveal_strlit("Curvature");
    reveal_strlit("node-modifier.curvature-desc");
    reveal_strlit("Selects convex (ridges, outcrops) or concave (valleys, hollows) ground from the surface curvature.");
    assert(begins(50));
    assert(begins(51));
    assert(begins(52));
    assert(begins(53));
    assert(begins(54));
    assert(begins(55));
    assert(begins(56));
    assert(begins(57));
    assert(begins(58));
    assert(begins(59));
}

proof fn lemma_begins_from_60()
    ensures
        forall|i: int| 60 <= i < 70 ==> #[trigger] begins(i),
{
    reveal(key_at);
    reveal(string_at);
    reveal_strlit("node-modifier.curve");
    reveal_strlit("Curve");
    reveal_strlit("node-modifier.curve-desc");
    reveal_strlit("Reshapes height through an editable transfer curve.");
    reveal_strlit("node-modifier.directional_blur");
    reveal_strlit("Directional Blur");
    reveal_strlit("node-modifier.directional_blur-desc");
    reveal_strlit("Smooths the height layer along or across a guide direction, steered by the slope or a flow field.");
    reveal_strlit("node-modifier.distance");
    reveal_strlit("Distance");
    reveal_strlit("node-modifier.distance-desc");
    reveal_strlit("Selects a band around a height contour by true distance, fading over a range in metres.");
    reveal_strlit("node-modifier.expression");
    reveal_strlit("Expression");
    reveal_strlit("node-modifier.expression-desc");
    reveal_strlit("A per-cell math formula over x, y, and the input layers: the escape hatch for custom math.");
    reveal_strlit("node-modifier.frequency_split");
    reveal_strlit("Frequency Split");
    reveal_strlit("node-modifier.frequency_split-desc");
    reveal_strlit("Splits the height into a low-frequency band and the high-frequency residual.");
    assert(begins(60));
    assert(begins(61));
    assert(begins(62));
    assert(begins(63));
    assert(begins(64));
    assert(begins(65));
    assert(begins(66));
    assert(begins(67));
    assert(begins(68));
    assert(begins(69));
}

proof fn lemma_begins_from_70()
    ensures
        forall|i: int| 70 <= i < 80 ==> #[trigger] begins(i),
{
    reveal(key_at);
    reveal(string_at);
    reveal_strlit("node-modifier.height");
    reveal_strlit("Height");
    reveal_strlit("node-modifier.height-desc");
    reveal_strlit("Selects a band of elevation: high where the normalized height is within min..max, softening over the falloff.");
    reveal_strlit("node-modifier.histogram_scan");
    reveal_strlit("Histogram-Scan");
    reveal_strlit("node-modifier.histogram_scan-desc");
    reveal_strlit("Windows a range of input values into a crisp [0, 1] mask, set by position, width, and a soft falloff.");
    reveal_strlit("node-modifier.hydraulic_erosion");
    reveal_strlit("Hydraulic Erosion");
    reveal_strlit("node-modifier.hydraulic_erosion-desc");
    reveal_strlit("Water carving the terrain, simulated as rain droplets that cut rills and deposit sediment.");
    reveal_strlit("node-modifier.invert");
    reveal_strlit("Invert");
    reveal_strlit("node-modifier.invert-desc");
    reveal_strlit("Flips the height layer (1 - height).");
    reveal_strlit("node-modifier.levels");
    reveal_strlit("Levels");
    reveal_strlit("node-modifier.levels-desc");
    reveal_strlit("Rescales the height range: stretch an input window to full, bias the midtones with gamma, and map into an output window.");
    assert(begins(70));
    assert(begins(71));
    assert(begins(72));
    assert(begins(73));
    assert(begins(74));
    assert(begins(75));
    assert(begins(76));
    assert(begins(77));
    assert(begins(78));
    assert(begins(79));
}

proof fn lemma_begins_from_80()
    ensures
        forall|i: int| 80 <= i < 90 ==> #[trigger] begins(i),
{
    reveal(key_at);
    reveal(string_at);
    reveal_strlit("node-modifier.normalize");
    reveal_strlit("Normalize");
    reveal_strlit("node-modifier.normalize-desc");
    reveal_strlit("Fits the height layer's actual min-max to [0, 1], pulling a raw or out-of-range field back into the working range.");
    reveal_strlit("node-modifier.null");
    reveal_strlit("Null");
    reveal_strlit("node-modifier.null-desc");
    reveal_strlit("Passes the field through unchanged: a point to view, reroute, or anchor wiring.");
    reveal_strlit("node-modifier.occlusion");
    reveal_strlit("Occlusion");
    reveal_strlit("node-modifier.occlusion-desc");
    reveal_strlit("Ambient-occlusion / sky-view measure: high in crevices and valley floors hemmed in by higher ground, low on open peaks and flats.");
    reveal_strlit("node-modifier.sculpt");
    reveal_strlit("Sculpt");
    reveal_strlit("node-modifier.sculpt-desc");
    reveal_strlit("Sculpt terrain by brushing height onto it: paint raises, erase lowers, and overlapping strokes build up.");
    reveal_strlit("node-modifier.slope");
    reveal_strlit("Slope");
    reveal_strlit("node-modifier.slope-desc");
    reveal_strlit("Selects a band of steepness: high where the slope angle is within min..max degrees, softening over the falloff.");
    assert(begins(80));
    assert(begins(81));
    assert(begins(82));
    assert(begins(83));
    assert(begins(84));
    assert(begins(85));
    assert(begins(86));
    assert(begins(87));
    assert(begins(88));
    assert(begins(89));
}

proof fn lemma_begins_from_90()
    ensures
        forall|i: int| 90 <= i < 100 ==> #[trigger] begins(i),
{
    reveal(key_at);
    reveal(string_at);
    reveal_strlit("node-modifier.stream_erosion");
    reveal_strlit("Stream Erosion");
    reveal_strlit("node-modifier.stream_erosion-desc");
    reveal_strlit("Carves drainage networks from flow accumulation; outputs the river/flow map.");
    reveal_strlit("node-modifier.terrace");
    reveal_strlit("Terrace");
    reveal_strlit("node-modifier.terrace-desc");
    reveal_strlit("Quantizes the height into stepped bands: flat treads joined by risers, for strata, benches, and mesa forms.");
    reveal_strlit("node-modifier.thermal_erosion");
    reveal_strlit("Thermal Erosion");
    reveal_strlit("node-modifier.thermal_erosion-desc");
    reveal_strlit("Relaxes slopes steeper than the talus angle toward repose.");
    reveal_strlit("node-modifier.warp");
    reveal_strlit("Warp");
    reveal_strlit("node-modifier.warp-desc");
    reveal_strlit("Domain warp: pushes the height layer sideways by a noise field so straight features wander and regular shapes turn natural.");
    reveal_strlit("node-subgraph");
    reveal_strlit("Subgraph");
    reveal_strlit("node-subgraph-desc");
    reveal_strlit("A node holding an inner graph; dive in to build it, its ports set by Input/Output nodes.");
    assert(begins(90));
    assert(begins(91));
    assert(begins(92));
    assert(begins(93));
    assert(begins(94));
    assert(begins(95));
    assert(begins(96));
    assert(begins(97));
    assert(begins(98));
    assert(begins(99));
}

proof fn lemma_begins_from_100()
    ensures
        forall|i: int| 100 <= i < 110 ==> #[trigger] begins(i),
{
    reveal(key_at);
    reveal(string_at);
    reveal_strlit("node-subgraph.input");
    reveal_strlit("Input");
    reveal_strlit("node-subgraph.input-desc");
    reveal_strlit("Marks a field a subgraph takes in: each one becomes an input port on the container.");
    reveal_strlit("node-subgraph.output");
    reveal_strlit("Output");
    reveal_strlit("node-subgraph.output-desc");
    reveal_strlit("Marks a field a subgraph hands out: each one becomes an output port on the container.");
    reveal_strlit("paint-mode-neg-generator.paint");
    reveal_strlit("Erase");
    reveal_strlit("paint-mode-neg-modifier.sculpt");
    reveal_strlit("Lower");
    reveal_strlit("paint-mode-pos-generator.paint");
    reveal_strlit("Paint");
    reveal_strlit("paint-mode-pos-modifier.sculpt");
    reveal_strlit("Raise");
    reveal_strlit("paint-verb-generator.paint");
    reveal_strlit("Paint");
    reveal_strlit("paint-verb-modifier.sculpt");
    reveal_strlit("Sculpt");
    assert(begins(100));
    assert(begins(101));
    assert(begins(102));
    assert(begins(103));
    assert(begins(104));
    assert(begins(105));
    assert(begins(106));
    assert(begins(107));
    assert(begins(108));
    assert(begins(109));
}

proof fn lemma_begins_from_110()
    ensures
        forall|i: int| 110 <= i < 120 ==> #[trigger] begins(i),
{
    reveal(key_at);
    reveal(string_at);
    reveal_strlit("param-endpoint.export_exr-height_units");
    reveal_strlit("Height Units");
    reveal_strlit("param-endpoint.export_exr-height_units-desc");
    reveal_strlit("Whether height is written as the normalized [0, 1] value or scaled to absolute metres by World Height.");
    reveal_strlit("param-frequency");
    reveal_strlit("Frequency");
    reveal_strlit("param-frequency-desc");
    reveal_strlit("Sets the feature size of the noise; higher values pack in smaller, denser features.");
    reveal_strlit("param-gain");
    reveal_strlit("Gain");
    reveal_strlit("param-gain-desc");
    reveal_strlit("How much each finer octave contributes; higher values make the fine detail rougher and more pronounced.");
    reveal_strlit("param-generator.import-edge");
    reveal_strlit("Edge");
    reveal_strlit("param-generator.import-edge-desc");
    reveal_strlit("How the field is filled where the placement maps outside the source image.");
    reveal_strlit("param-lacunarity");
    reveal_strlit("Lacunarity");
    reveal_strlit("param-lacunarity-desc");
    reveal_strlit("How much finer each octave is than the one before it; higher values widen the gap between coarse and fine detail.");
    assert(begins(110));
    assert(begins(111));
    assert(begins(112));
    assert(begins(113));
    assert(begins(114));
    assert(begins(115));
    assert(begins(116));
    assert(begins(117));
    assert(begins(118));
    assert(begins(119));
}

proof fn lemma_begins_from_120()
    ensures
        forall|i: int| 120 <= i < 130 ==> #[trigger] begins(i),
{
    reveal(key_at);
    reveal(string_at);
    reveal_strlit("param-modifier.blend-mode");
    reveal_strlit("Mode");
    reveal_strlit("param-modifier.blend-mode-desc");
    reveal_strlit("How the overlay is combined with the base field.");
    reveal_strlit("param-modifier.curvature-mode");
    reveal_strlit("Mode");
    reveal_strlit("param-modifier.curvature-mode-desc");
    reveal_strlit("Which ground to select: convex (ridges, outcrops) or concave (valleys, hollows).");
    reveal_strlit("param-modifier.directional_blur-direction");
    reveal_strlit("Direction");
    reveal_strlit("param-modifier.directional_blur-direction-desc");
    reveal_strlit("Whether smoothing runs along the guide direction or across it.");
    reveal_strlit("param-modifier.distance-side");
    reveal_strlit("Side");
    reveal_strlit("param-modifier.distance-side-desc");
    reveal_strlit("Which side of the contour the band covers: both, only above, or only below.");
    reveal_strlit("param-modifier.histogram_scan-range");
    reveal_strlit("Range");
    reveal_strlit("param-modifier.histogram_scan-range-desc");
    reveal_strlit("Whether the window scans the input's actual range (Auto) or the fixed [0, 1] range (Fixed).");
    assert(begins(120));
    assert(begins(121));
    assert(begins(122));
    assert(begins(123));
    assert(begins(124));
    assert(begins(125));
    assert(begins(126));
    assert(begins(127));
    assert(begins(128));
    assert(begins(129));
}

proof fn lemma_begins_from_130()
    ensures
        forall|i: int| 130 <= i < 140 ==> #[trigger] begins(i),
{
    reveal(key_at);
    reveal(string_at);
    reveal_strlit("param-modifier.terrace-range");
    reveal_strlit("Range");
    reveal_strlit("param-modifier.terrace-range-desc");
    reveal_strlit("Whether the bands span the terrain's actual height (Auto) or sit at fixed absolute elevations (Fixed).");
    reveal_strlit("param-octaves");
    reveal_strlit("Octaves");
    reveal_strlit("param-octaves-desc");
    reveal_strlit("The number of noise layers summed together; more octaves add finer detail.");
    reveal_strlit("param-offset_x");
    reveal_strlit("Offset X");
    reveal_strlit("param-offset_x-desc");
    reveal_strlit("Pans the noise pattern along the X axis without changing its shape.");
    reveal_strlit("param-offset_y");
    reveal_strlit("Offset Y");
    reveal_strlit("param-offset_y-desc");
    reveal_strlit("Pans the noise pattern along the Y axis without changing its shape.");
    reveal_strlit("param-seed");
    reveal_strlit("Seed");
    reveal_strlit("param-seed-desc");
    reveal_strlit("The random seed; changing it regenerates a different variation of the same pattern.");
    assert(begins(130));
    assert(begins(131));
    assert(begins(132));
    assert(begins(133));
    assert(begins(134));
    assert(begins(135));
    assert(begins(136));
    assert(begins(137));
    assert(begins(138));
    assert(begins(139));
}

/// Every key begins with a letter that no text begins with, and no text is empty.
pub proof fn law_texts_begin_like_no_key(i: int)
    requires
        0 <= i < CATALOG_LEN,
    ensures
        begins(i),
{
    lemma_begins_from_0();
    lemma_begins_from_10();
    lemma_begins_from_20();
    lemma_begins_from_30();
    lemma_begins_from_40();
    lemma_begins_from_50();
    lemma_begins_from_60();
    lemma_begins_from_70();
    lemma_begins_from_80();
    lemma_begins_from_90();
    lemma_begins_from_100();
    lemma_begins_from_110();
    lemma_begins_from_120();
    lemma_begins_from_130();
}

proof fn lemma_nodes_described_from_8()
    ensures
        forall|i: int| 8 <= i < 16 ==> #[trigger] described(i),
{
    reveal(key_at);
    reveal_strlit("-desc");
    reveal_strlit("node-endpoint.export");
    reveal_strlit("node-endpoint.export-desc");
    reveal_strlit("node-endpoint.export_exr");
    reveal_strlit("node-endpoint.export_exr-desc");
    reveal_strlit("node-endpoint.export_r16");
    reveal_strlit("node-endpoint.export_r16-desc");
    reveal_strlit("node-generator.billow");
    reveal_strlit("node-generator.billow-desc");
    assert(key_at(9) =~= key_at(8) + "-desc"@);
    assert(described(8));
    assert(key_at(9).skip(20) =~= "-desc"@);
    assert(described(9));
    assert(key_at(11) =~= key_at(10) + "-desc"@);
    assert(described(10));
    assert(key_at(11).skip(24) =~= "-desc"@);
    assert(described(11));
    assert(key_at(13) =~= key_at(12) + "-desc"@);
    assert(described(12));
    assert(key_at(13).skip(24) =~= "-desc"@);
    assert(described(13));
    assert(key_at(15) =~= key_at(14) + "-desc"@);
    assert(described(14));
    assert(key_at(15).skip(21) =~= "-desc"@);
    assert(described(15));
}

proof fn lemma_nodes_described_from_16()
    ensures
        forall|i: int| 16 <= i < 24 ==> #[trigger] described(i),
{
    reveal(key_at);
    reveal_strlit("-desc");
    reveal_strlit("node-generator.cellular_bumps");
    reveal_strlit("node-generator.cellular_bumps-desc");
    reveal_strlit("node-generator.cellular_cracks");
    reveal_strlit("node-generator.cellular_cracks-desc");
    reveal_strlit("node-generator.cellular_regions");
    reveal_strlit("node-generator.cellular_regions-desc");
    reveal_strlit("node-generator.constant");
    reveal_strlit("node-generator.constant-desc");
    assert(key_at(17) =~= key_at(16) + "-desc"@);
    assert(described(16));
    assert(key_at(17).skip(29) =~= "-desc"@);
    assert(described(17));
    assert(key_at(19) =~= key_at(18) + "-desc"@);
    assert(described(18));
    assert(key_at(19).skip(30) =~= "-desc"@);
    assert(described(19));
    assert(key_at(21) =~= key_at(20) + "-desc"@);
    assert(described(20));
    assert(key_at(21).skip(31) =~= "-desc"@);
    assert(described(21));
    assert(key_at(23) =~= key_at(22) + "-desc"@);
    assert(described(22));
    assert(key_at(23).skip(23) =~= "-desc"@);
    assert(described(23));
}

proof fn lemma_nodes_described_from_24()
    ensures
        forall|i: int| 24 <= i < 32 ==> #[trigger] described(i),
{
    reveal(key_at);
    reveal_strlit("-desc");
    reveal_strlit("node-generator.falloff");
    reveal_strlit("node-generator.falloff-desc");
    reveal_strlit("node-generator.fbm");
    reveal_strlit("node-generator.fbm-desc");
    reveal_strlit("node-generator.flow");
    reveal_strlit("node-generator.flow-desc");
    reveal_strlit("node-generator.gradient");
    reveal_strlit("node-generator.gradient-desc");
    assert(key_at(25) =~= key_at(24) + "-desc"@);
    assert(described(24));
    assert(key_at(25).skip(22) =~= "-desc"@);
    assert(described(25));
    assert(key_at(27) =~= key_at(26) + "-desc"@);
    assert(described(26));
    assert(key_at(27).skip(18) =~= "-desc"@);
    assert(described(27));
    assert(key_at(29) =~= key_at(28) + "-desc"@);
    assert(described(28));
    assert(key_at(29).skip(19) =~= "-desc"@);
    assert(described(29));
    assert(key_at(31) =~= key_at(30) + "-desc"@);
    assert(described(30));
    assert(key_at(31).skip(23) =~= "-desc"@);
    assert(described(31));
}

proof fn lemma_nodes_described_from_32()
    ensures
        forall|i: int| 32 <= i < 40 ==> #[trigger] described(i),
{
    reveal(key_at);
    reveal_strlit("-desc");
    reveal_strlit("node-generator.hybrid");
    reveal_strlit("node-generator.hybrid-desc");
    reveal_strlit("node-generator.import");
    reveal_strlit("node-generator.import-desc");
    reveal_strlit("node-generator.paint");
    reveal_strlit("node-generator.paint-desc");
    reveal_strlit("node-generator.polygon");
    reveal_strlit("node-generator.polygon-desc");
    assert(key_at(33) =~= key_at(32) + "-desc"@);
    assert(described(32));
    assert(key_at(33).skip(21) =~= "-desc"@);
    assert(described(33));
    assert(key_at(35) =~= key_at(34) + "-desc"@);
    assert(described(34));
    assert(key_at(35).skip(21) =~= "-desc"@);
    assert(described(35));
    assert(key_at(37) =~= key_at(36) + "-desc"@);
    assert(described(36));
    assert(key_at(37).skip(20) =~= "-desc"@);
    assert(described(37));
    assert(key_at(39) =~= key_at(38) + "-desc"@);
    assert(described(38));
    assert(key_at(39).skip(22) =~= "-desc"@);
    assert(described(39));
}

proof fn lemma_nodes_described_from_40()
    ensures
        forall|i: int| 40 <= i < 48 ==> #[trigger] described(i),
{
    reveal(key_at);
    reveal_strlit("-desc");
    reveal_strlit("node-generator.radial");
    reveal_strlit("node-generator.radial-desc");
    reveal_strlit("node-generator.rect");
    reveal_strlit("node-generator.rect-desc");
    reveal_strlit("node-generator.ridged");
    reveal_strlit("node-generator.ridged-desc");
    reveal_strlit("node-generator.ring");
    reveal_strlit("node-generator.ring-desc");
    assert(key_at(41) =~= key_at(40) + "-desc"@);
    assert(described(40));
    assert(key_at(41).skip(21) =~= "-desc"@);
    assert(described(41));
    assert(key_at(43) =~= key_at(42) + "-desc"@);
    assert(described(42));
    assert(key_at(43).skip(19) =~= "-desc"@);
    assert(described(43));
    assert(key_at(45) =~= key_at(44) + "-desc"@);
    assert(described(44));
    assert(key_at(45).skip(21) =~= "-desc"@);
    assert(described(45));
    assert(key_at(47) =~= key_at(46) + "-desc"@);
    assert(described(46));
    assert(key_at(47).skip(19) =~= "-desc"@);
    assert(described(47));
}

proof fn lemma_nodes_described_from_48()
    ensures
        forall|i: int| 48 <= i < 56 ==> #[trigger] described(i),
{
    reveal(key_at);
    reveal_strlit("-desc");
    reveal_strlit("node-modifier.aspect");
    reveal_strlit("node-modifier.aspect-desc");
    reveal_strlit("node-modifier.blend");
    reveal_strlit("node-modifier.blend-desc");
    reveal_strlit("node-modifier.blur");
    reveal_strlit("node-modifier.blur-desc");
    reveal_strlit("node-modifier.clamp");
    reveal_strlit("node-modifier.clamp-desc");
    assert(key_at(49) =~= key_at(48) + "-desc"@);
    assert(described(48));
    assert(key_at(49).skip(20) =~= "-desc"@);
    assert(described(49));
    assert(key_at(51) =~= key_at(50) + "-desc"@);
    assert(described(50));
    assert(key_at(51).skip(19) =~= "-desc"@);
    assert(described(51));
    assert(key_at(53) =~= key_at(52) + "-desc"@);
    assert(described(52));
    assert(key_at(53).skip(18) =~= "-desc"@);
    assert(described(53));
    assert(key_at(55) =~= key_at(54) + "-desc"@);
    assert(described(54));
    assert(key_at(55).skip(19) =~= "-desc"@);
    assert(described(55));
}

proof fn lemma_nodes_described_from_56()
    ensures
        forall|i: int| 56 <= i < 64 ==> #[trigger] described(i),
{
    reveal(key_at);
    reveal_strlit("-desc");
    reveal_strlit("node-modifier.coastal");
    reveal_strlit("node-modifier.coastal-desc");
    reveal_strlit("node-modifier.curvature");
    reveal_strlit("node-modifier.curvature-desc");
    reveal_strlit("node-modifier.curve");
    reveal_strlit("node-modifier.curve-desc");
    reveal_strlit("node-modifier.directional_blur");
    reveal_strlit("node-modifier.directional_blur-desc");
    assert(key_at(57) =~= key_at(56) + "-desc"@);
    assert(described(56));
    assert(key_at(57).skip(21) =~= "-desc"@);
    assert(described(57));
    assert(key_at(59) =~= key_at(58) + "-desc"@);
    assert(described(58));
    assert(key_at(59).skip(23) =~= "-desc"@);
    assert(described(59));
    assert(key_at(61) =~= key_at(60) + "-desc"@);
    assert(described(60));
    assert(key_at(61).skip(19) =~= "-desc"@);
    assert(described(61));
    assert(key_at(63) =~= key_at(62) + "-desc"@);
    assert(described(62));
    assert(key_at(63).skip(30) =~= "-desc"@);
    assert(described(63));
}

proof fn lemma_nodes_described_from_64()
    ensures
        forall|i: int| 64 <= i < 72 ==> #[trigger] described(i),
{
    reveal(key_at);
    reveal_strlit("-desc");
    reveal_strlit("node-modifier.distance");
    reveal_strlit("node-modifier.distance-desc");
    reveal_strlit("node-modifier.expression");
    reveal_strlit("node-modifier.expression-desc");
    reveal_strlit("node-modifier.frequency_split");
    reveal_strlit("node-modifier.frequency_split-desc");
    reveal_strlit("node-modifier.height");
    reveal_strlit("node-modifier.height-desc");
    assert(key_at(65) =~= key_at(64) + "-desc"@);
    assert(described(64));
    assert(key_at(65).skip(22) =~= "-desc"@);
    assert(described(65));
    assert(key_at(67) =~= key_at(66) + "-desc"@);
    assert(described(66));
    assert(key_at(67).skip(24) =~= "-desc"@);
    assert(described(67));
    assert(key_at(69) =~= key_at(68) + "-desc"@);
    assert(described(68));
    assert(key_at(69).skip(29) =~= "-desc"@);
    assert(described(69));
    assert(key_at(71) =~= key_at(70) + "-desc"@);
    assert(described(70));
    assert(key_at(71).skip(20) =~= "-desc"@);
    assert(described(71));
}

proof fn lemma_nodes_described_from_72()
    ensures
        forall|i: int| 72 <= i < 80 ==> #[trigger] described(i),
{
    reveal(key_at);
    reveal_strlit("-desc");
    reveal_strlit("node-modifier.histogram_scan");
    reveal_strlit("node-modifier.histogram_scan-desc");
    reveal_strlit("node-modifier.hydraulic_erosion");
    reveal_strlit("node-modifier.hydraulic_erosion-desc");
    reveal_strlit("node-modifier.invert");
    reveal_strlit("node-modifier.invert-desc");
    reveal_strlit("node-modifier.levels");
    reveal_strlit("node-modifier.levels-desc");
    assert(key_at(73) =~= key_at(72) + "-desc"@);
    assert(described(72));
    assert(key_at(73).skip(28) =~= "-desc"@);
    assert(described(73));
    assert(key_at(75) =~= key_at(74) + "-desc"@);
    assert(described(74));
    assert(key_at(75).skip(31) =~= "-desc"@);
    assert(described(75));
    assert(key_at(77) =~= key_at(76) + "-desc"@);
    assert(described(76));
    assert(key_at(77).skip(20) =~= "-desc"@);
    assert(described(77));
    assert(key_at(79) =~= key_at(78) + "-desc"@);
    assert(described(78));
    assert(key_at(79).skip(20) =~= "-desc"@);
    assert(described(79));
}

proof fn lemma_nodes_described_from_80()
    ensures
        forall|i: int| 80 <= i < 88 ==> #[trigger] described(i),
{
    reveal(key_at);
    reveal_strlit("-desc");
    reveal_strlit("node-modifier.normalize");
    reveal_strlit("node-modifier.normalize-desc");
    reveal_strlit("node-modifier.null");
    reveal_strlit("node-modifier.null-desc");
    reveal_strlit("node-modifier.occlusion");
    reveal_strlit("node-modifier.occlusion-desc");
    reveal_strlit("node-modifier.sculpt");
    reveal_strlit("node-modifier.sculpt-desc");
    assert(key_at(81) =~= key_at(80) + "-desc"@);
    assert(described(80));
    assert(key_at(81).skip(23) =~= "-desc"@);
    assert(described(81));
    assert(key_at(83) =~= key_at(82) + "-desc"@);
    assert(described(82));
    assert(key_at(83).skip(18) =~= "-desc"@);
    assert(described(83));
    assert(key_at(85) =~= key_at(84) + "-desc"@);
    assert(described(84));
    assert(key_at(85).skip(23) =~= "-desc"@);
    assert(described(85));
    assert(key_at(87) =~= key_at(86) + "-desc"@);
    assert(described(86));
    assert(key_at(87).skip(20) =~= "-desc"@);
    assert(described(87));
}

proof fn lemma_nodes_described_from_88()
    ensures
        forall|i: int| 88 <= i < 96 ==> #[trigger] described(i),
{
    reveal(key_at);
    reveal_strlit("-desc");
    reveal_strlit("node-modifier.slope");
    reveal_strlit("node-modifier.slope-desc");
    reveal_strlit("node-modifier.stream_erosion");
    reveal_strlit("node-modifier.stream_erosion-desc");
    reveal_strlit("node-modifier.terrace");
    reveal_strlit("node-modifier.terrace-desc");
    reveal_strlit("node-modifier.thermal_erosion");
    reveal_strlit("node-modifier.thermal_erosion-desc");
    assert(key_at(89) =~= key_at(88) + "-desc"@);
    assert(described(88));
    assert(key_at(89).skip(19) =~= "-desc"@);
    assert(described(89));
    assert(key_at(91) =~= key_at(90) + "-desc"@);
    assert(described(90));
    assert(key_at(91).skip(28) =~= "-desc"@);
    assert(described(91));
    assert(key_at(93) =~= key_at(92) + "-desc"@);
    assert(described(92));
    assert(key_at(93).skip(21) =~= "-desc"@);
    assert(described(93));
    assert(key_at(95) =~= key_at(94) + "-desc"@);
    assert(described(94));
    assert(key_at(95).skip(29) =~= "-desc"@);
    assert(described(95));
}

proof fn lemma_nodes_described_from_96()
    ensures
        forall|i: int| 96 <= i < 104 ==> #[trigger] described(i),
{
    reveal(key_at);
    reveal_strlit("-desc");
    reveal_strlit("node-modifier.warp");
    reveal_strlit("node-modifier.warp-desc");
    reveal_strlit("node-subgraph");
    reveal_strlit("node-subgraph-desc");
    reveal_strlit("node-subgraph.input");
    reveal_strlit("node-subgraph.input-desc");
    reveal_strlit("node-subgraph.output");
    reveal_strlit("node-subgraph.output-desc");
    assert(key_at(97) =~= key_at(96) + "-desc"@);
    assert(described(96));
    assert(key_at(97).skip(18) =~= "-desc"@);
    assert(described(97));
    assert(key_at(99) =~= key_at(98) + "-desc"@);
    assert(described(98));
    assert(key_at(99).skip(13) =~= "-desc"@);
    assert(described(99));
    assert(key_at(101) =~= key_at(100) + "-desc"@);
    assert(described(100));
    assert(key_at(101).skip(19) =~= "-desc"@);
    assert(described(101));
    assert(key_at(103) =~= key_at(102) + "-desc"@);
    assert(described(102));
    assert(key_at(103).skip(20) =~= "-desc"@);
    assert(described(103));
}

/// Every node and parameter label has its one-line description, which is not empty: the entry of a
/// `node-` or `param-` key that is not itself a description is followed by the one that describes
/// it.
pub proof fn law_labels_are_described(i: int)
    requires
        0 <= i < CATALOG_LEN,
        starts_with(key_at(i), "node-"@) || starts_with(key_at(i), "param-"@),
        !ends_with(key_at(i), "-desc"@),
    ensures
        i + 1 < CATALOG_LEN,
        key_at(i + 1) == key_at(i) + "-desc"@,
        string_at(i + 1).len() > 0,
{
    if starts_with(key_at(i), "node-"@) {
        law_texts_begin_like_no_key(i);
        reveal_strlit("node-");
        assert(key_at(i).take(5)[0] == 'n');
        lemma_nodes_described_from_8();
        lemma_nodes_described_from_16();
        lemma_nodes_described_from_24();
        lemma_nodes_described_from_32();
        lemma_nodes_described_from_40();
        lemma_nodes_described_from_48();
        lemma_nodes_described_from_56();
        lemma_nodes_described_from_64();
        lemma_nodes_described_from_72();
        lemma_nodes_described_from_80();
        lemma_nodes_described_from_88();
        lemma_nodes_described_from_96();
        assert(described(i));
    } else {
        law_parameter_labels_are_described(i);
    }
    law_texts_begin_like_no_key(i + 1);
}

} // verus!
