use vstd::prelude::*;

verus! {

/// Whether a filter of layer and data type pairs lets a shape on `layer` with
/// `data_type` through: an empty filter lets everything through.
pub open spec fn accepts(filter: Seq<(i32, i32)>, layer: i32, data_type: i32) -> bool {
    filter.len() == 0 || filter.contains((layer, data_type))
}

/// Whether a filter lets a shape without a data type through that lies on `layer`: an
/// empty filter lets everything through, another one what shares the layer of a pair.
pub open spec fn accepts_layer(filter: Seq<(i32, i32)>, layer: i32) -> bool {
    filter.len() == 0 || exists|i: int| 0 <= i < filter.len() && (#[trigger] filter[i]).0 == layer
}

/// Whether the filter lets a shape on `layer` with `data_type` through.
pub fn filter_accepts(filter: &Vec<(i32, i32)>, layer: i32, data_type: i32) -> (accepted: bool)
    ensures
        accepted == accepts(filter@, layer, data_type),
{
    if filter.len() == 0 {
        return true;
    }
    let mut index: usize = 0;
    while index < filter.len()
        invariant
            index <= filter.len(),
            forall|i: int| 0 <= i < index ==> filter@[i] != (layer, data_type),
        decreases filter.len() - index,
    {
        let pair = filter[index];
        if pair.0 == layer && pair.1 == data_type {
            assert(filter@[index as int] == (layer, data_type));
            return true;
        }
        index = index + 1;
    }
    false
}

/// Whether the filter lets a shape without a data type through that lies on `layer`.
pub fn filter_accepts_layer(filter: &Vec<(i32, i32)>, layer: i32) -> (accepted: bool)
    ensures
        accepted == accepts_layer(filter@, layer),
{
    if filter.len() == 0 {
        return true;
    }
    let mut index: usize = 0;
    while index < filter.len()
        invariant
            index <= filter.len(),
            forall|i: int| 0 <= i < index ==> (#[trigger] filter@[i]).0 != layer,
        decreases filter.len() - index,
    {
        if filter[index].0 == layer {
            return true;
        }
        index = index + 1;
    }
    false
}

} // verus!
