//! What the variables of a formula read at a cell.
use crate::field::{Field, MASK};
use crate::nodes::expression::{layer_list, layer_of, nameable, values_at, variables};
use crate::sampling_laws::gives;
use crate::shaping::value_at;
use vstd::prelude::*;

verus! {

/// The first two variables are the coordinates, and every other variable reads the layer of its own
/// name at the cell itself; a layer that is not there reads as full where it is the mask, and as
/// nothing otherwise.
pub proof fn law_variables_read_their_own_layers<V, R>(
    input: &Field<V, R>,
    size: (usize, usize),
    ends: (V, V),
    list: Seq<Seq<char>>,
    at: (V, V),
    f: spec_fn(int, int) -> V,
    i: int,
    x: int,
    y: int,
)
    requires
        0 <= i < list.len(),
        0 <= x < input.width,
        0 <= y < input.height,
    ensures
        ({
            let (names, seen) = (
                variables(list),
                values_at(Some(input), size, ends, list, at, x, y),
            );
            &&& names.len() == list.len() + 2
            &&& seen.len() == names.len()
            &&& names[0] == "x"@ && seen[0] == at.0
            &&& names[1] == "y"@ && seen[1] == at.1
            &&& names[i + 2] == list[i]
            &&& input.layers().contains_key(list[i]) && gives(input.layers()[list[i]], f) && x
                < input.layers()[list[i]].width && y < input.layers()[list[i]].height ==> seen[i
                + 2] == f(x, y)
            &&& !input.layers().contains_key(list[i]) ==> seen[i + 2] == if list[i] == MASK@ {
                ends.1
            } else {
                ends.0
            }
        }),
{
    let name = list[i];
    let layer = layer_of(Some(input), size, ends, name);
    if input.layers().contains_key(name) && gives(input.layers()[name], f) && x
        < input.layers()[name].width && y < input.layers()[name].height {
        assert(input.layers()[name].at(x, y) == Some(f(x, y)));
    }
    if !input.layers().contains_key(name) {
        crate::grid::lemma_index(
            crate::grid::Grid { width: input.width, height: input.height },
            x,
            y,
        );
        assert(layer.at(x, y) is Some);
    }
    assert(values_at(Some(input), size, ends, list, at, x, y)[i + 2] == value_at(
        layer,
        x,
        y,
        ends.0,
    ));
}

/// Every layer of the input, and the height and the mask whether or not it has them, is a variable
/// of its own name.
pub proof fn law_every_layer_is_a_variable<V, R>(
    input: &Field<V, R>,
    list: Seq<Seq<char>>,
    name: Seq<char>,
)
    requires
        layer_list(Some(input), list),
        input.layers().contains_key(name) || name == "height"@ || name == "mask"@,
    ensures
        variables(list).contains(name),
{
    assert(nameable(Some(input), name));
    assert(list.contains(name));
    let i = choose|i: int| 0 <= i < list.len() && list[i] == name;
    assert(variables(list)[i + 2] == name);
}

} // verus!
