# ymir_nodes

Terrain nodes: generators, filters, selectors and erosion models over height fields, with the
expression language and the interface strings of the node editor.

The library under `src/` is verified with Verus. It holds no floating-point numbers. Heights are
compared by order keys, areas and distances by the bits of non-negative floats, and the arithmetic
on them comes in as functions, which the contracts quantify over. What the library proves is
everything around that arithmetic: which cells are read and written, in what order, how often, and
what becomes of every layer, mask, edge and cancellation.

- `field`, `grid`, `keys`, `functions`, `shaping`: fields and their layers, neighbourhoods, keys.
- `expr`: lexer, parser and stack programs of the expression language.
- `hydrology`: depression filling, flats, routing, drainage areas, incision.
- `talus`, `blur`, `brush`, `droplet`, `water_sim`, `erosion`, `thermal_gpu`: the models.
- `noise`, `rng`: lattice hashes, octaves, cellular search, draws.
- `totals`, `talus_laws`, `water_laws`: what the models conserve, exactly and up to rounding,
  stated over real numbers.
- `strings`, `catalog`, `catalog_laws`, `node`, `selector`: interface strings and declarations.
- `decode_cache`, `strokes`, `flow_selector`: image decodes, brush strokes, flow selections.
- `nodes`: one module per node.

`app/` is ordinary Rust around the library: the floating-point formulas, files, the device, and the
registration of the operators. `tests/` runs the library.
