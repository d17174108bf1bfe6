use vstd::prelude::*;
use crate::cell::{Cell, CellView};
use crate::element::{Element, ElementView, Instance, InstanceView, Reference, ReferenceView};
use crate::flatten::{
    all_on, cell_elements, concrete, copies_in_grid, direct, direct_to, elements_to, flatten_to,
    flattened, in_grid, keep_on, kept, lemma_grid_copies, lemma_kept, lemma_spread_concrete,
    as_placed, path_elements, polygon_elements, text_elements, spread, spread_in_grid, unplaced,
    Placed, PlacedView,
};
use crate::library::{place_of, Library};
use crate::order::{lemma_sound_short, places, sound};
use crate::traits::{lemma_views_push, views};

verus! {

/// How many references a reference to an element is wrapped in: none for a reference to
/// a cell, or to a polygon, a path or a text.
pub open spec fn nesting(reference: ReferenceView) -> nat
    decreases reference,
{
    match reference.instance {
        InstanceView::Cell(_) => 0,
        InstanceView::Element(element) => match *element {
            ElementView::Reference(inner) => 1 + nesting(inner),
            _ => 0,
        },
    }
}

/// What a reference stands for when it is resolved all the way down, in the library with
/// the given cells and under the given filter. `path` holds the places of the cells that
/// are being expanded at the moment.
///
/// A reference to a cell stands for the copies that its grid makes of what the cell
/// holds, resolved in turn with that cell on the path; a cell that the library does not
/// hold counts as empty. A reference to a cell that is on the path already closes a
/// circle: it stands for itself, unexpanded, and so the resolving ends in every library.
/// A reference to a polygon, a path or a text stands for the copies of that element, if
/// the filter lets it through. A reference to a reference stands for the copies that its
/// grid makes of what the inner reference stands for.
pub open spec fn unwound(
    cells: Seq<CellView>,
    reference: ReferenceView,
    filter: Seq<(i32, i32)>,
    path: Seq<int>,
) -> Seq<PlacedView>
    decreases cells.len() - path.len(), 0nat, nesting(reference),
{
    match reference.instance {
        InstanceView::Cell(name) => {
            let place = place_of(cells, name);
            if !(0 <= place < cells.len()) {
                Seq::empty()
            } else if path.contains(place) || path.len() >= cells.len() {
                seq![unplaced(ElementView::Reference(reference))]
            } else {
                spread(reference.grid, cell_unwound(cells, cells[place], filter, path.push(place)))
            }
        },
        InstanceView::Element(element) => match *element {
            ElementView::Reference(inner) => spread(
                reference.grid,
                unwound(cells, inner, filter, path),
            ),
            other => if other.on(filter) {
                in_grid(reference.grid, unplaced(other))
            } else {
                Seq::empty()
            },
        },
    }
}

/// What the references of a list stand for when they are resolved all the way down, one
/// after the other, as far as the filter lets it through.
pub open spec fn references_unwound(
    cells: Seq<CellView>,
    references: Seq<ReferenceView>,
    filter: Seq<(i32, i32)>,
    path: Seq<int>,
) -> Seq<PlacedView>
    decreases cells.len() - path.len(), 1nat, references.len(),
{
    if references.len() == 0 {
        Seq::empty()
    } else {
        references_unwound(cells, references.drop_last(), filter, path) + kept(
            unwound(cells, references.last(), filter, path),
            filter,
        )
    }
}

/// The elements of a cell with its references resolved all the way down: the polygons,
/// the paths and the texts that the filter lets through, each as it stands, then what the
/// references stand for.
pub open spec fn cell_unwound(
    cells: Seq<CellView>,
    cell: CellView,
    filter: Seq<(i32, i32)>,
    path: Seq<int>,
) -> Seq<PlacedView>
    decreases cells.len() - path.len(), 2nat, 0nat,
{
    direct(cell, filter) + references_unwound(cells, cell.references, filter, path)
}

/// The path on which the resolving of a cell starts: the place of the cell of that name
/// in the library, if it holds one.
pub open spec fn own_path(cells: Seq<CellView>, name: Seq<char>) -> Seq<int> {
    if 0 <= place_of(cells, name) < cells.len() {
        seq![place_of(cells, name)]
    } else {
        Seq::empty()
    }
}

/// What a reference stands for when it is resolved `depth` levels deep, or all the way
/// down where no depth is given.
pub open spec fn expanded(
    cells: Seq<CellView>,
    reference: ReferenceView,
    filter: Seq<(i32, i32)>,
    depth: Option<usize>,
    path: Seq<int>,
) -> Seq<PlacedView> {
    match depth {
        Some(count) => flattened(cells, reference, filter, count as nat),
        None => unwound(cells, reference, filter, path),
    }
}

/// The elements of a cell with its references resolved `depth` levels deep, or all the
/// way down where no depth is given.
pub open spec fn cell_expanded(
    cells: Seq<CellView>,
    cell: CellView,
    filter: Seq<(i32, i32)>,
    depth: Option<usize>,
) -> Seq<PlacedView> {
    match depth {
        Some(count) => cell_elements(cells, cell, filter, count as nat),
        None => cell_unwound(cells, cell, filter, own_path(cells, cell.name)),
    }
}

/// Whether the place is on the path.
fn on_path(path: &Vec<usize>, place: usize) -> (found: bool)
    ensures
        found == places(path@).contains(place as int),
{
    let mut index: usize = 0;
    while index < path.len()
        invariant
            index <= path.len(),
            forall|k: int| 0 <= k < index ==> places(path@)[k] != place as int,
        decreases path.len() - index,
    {
        if path[index] == place {
            assert(places(path@)[index as int] == place as int);
            return true;
        }
        index = index + 1;
    }
    false
}

/// The path with one more place at its end.
fn longer(path: &Vec<usize>, place: usize) -> (next: Vec<usize>)
    ensures
        places(next@) == places(path@).push(place as int),
{
    let mut next: Vec<usize> = Vec::new();
    let mut index: usize = 0;
    while index < path.len()
        invariant
            index <= path.len(),
            next@ == path@.take(index as int),
        decreases path.len() - index,
    {
        next.push(path[index]);
        assert(path@.take(index + 1) =~= path@.take(index as int).push(path@[index as int]));
        index = index + 1;
    }
    assert(path@.take(path.len() as int) =~= path@);
    next.push(place);
    assert(places(next@) =~= places(path@).push(place as int));
    next
}

/// What a reference stands for when it is resolved all the way down.
pub fn unwind_to(
    reference: &Reference,
    library: &Library,
    filter: &Vec<(i32, i32)>,
    path: &Vec<usize>,
) -> (elements: Vec<Placed>)
    ensures
        views(elements@) == unwound(library@.cells, reference@, filter@, places(path@)),
    decreases library@.cells.len() - places(path@).len(), 0nat, nesting(reference@),
{
    match &reference.instance {
        Instance::Cell(name) => {
            match library.index_of(name) {
                Some(place) => {
                    assert(library@.cells[place as int] == library.cells@[place as int]@);
                    if on_path(path, place) || path.len() >= library.cells.len() {
                        let mut elements: Vec<Placed> = Vec::new();
                        let placed = Placed::new(Element::Reference(reference.copy()));
                        proof {
                            lemma_views_push(elements@, placed);
                            assert(views(elements@) =~= Seq::<PlacedView>::empty());
                            assert(Seq::<PlacedView>::empty().push(placed@) =~= seq![placed@]);
                        }
                        elements.push(placed);
                        elements
                    } else {
                        let next = longer(path, place);
                        let inner = unwind_elements_to(&library.cells[place], library, filter, &next);
                        spread_in_grid(reference.grid, &inner)
                    }
                },
                None => {
                    let elements: Vec<Placed> = Vec::new();
                    assert(views(elements@) =~= Seq::<PlacedView>::empty());
                    elements
                },
            }
        },
        Instance::Element(element) => {
            match &**element {
                Element::Reference(inner) => {
                    let below = unwind_to(inner, library, filter, path);
                    spread_in_grid(reference.grid, &below)
                },
                other => {
                    if other.is_on(filter) {
                        let placed = Placed::new(other.copy());
                        copies_in_grid(reference.grid, &placed)
                    } else {
                        let elements: Vec<Placed> = Vec::new();
                        assert(views(elements@) =~= Seq::<PlacedView>::empty());
                        elements
                    }
                },
            }
        },
    }
}

/// The elements of a cell with its references resolved all the way down.
pub fn unwind_elements_to(
    cell: &Cell,
    library: &Library,
    filter: &Vec<(i32, i32)>,
    path: &Vec<usize>,
) -> (elements: Vec<Placed>)
    ensures
        views(elements@) == cell_unwound(library@.cells, cell@, filter@, places(path@)),
    decreases library@.cells.len() - places(path@).len(), 2nat, 0nat,
{
    let ghost cells = library@.cells;
    let ghost way = places(path@);
    let mut elements = direct_to(cell, filter);
    let ghost plain = direct(cell@, filter@);
    let ghost references = cell@.references;
    proof {
        assert(references.take(0) =~= Seq::<ReferenceView>::empty());
        assert(views(elements@) + Seq::<PlacedView>::empty() =~= views(elements@));
    }
    let mut index: usize = 0;
    while index < cell.references.len()
        invariant
            index <= cell.references.len(),
            cells == library@.cells,
            way == places(path@),
            references == cell@.references,
            plain == direct(cell@, filter@),
            views(elements@) == plain + references_unwound(
                cells,
                references.take(index as int),
                filter@,
                way,
            ),
        decreases cell.references.len() - index,
    {
        let found = unwind_to(&cell.references[index], library, filter, path);
        proof {
            let next = references.take(index + 1);
            assert(next.drop_last() =~= references.take(index as int));
            assert(next.last() == cell.references@[index as int]@);
        }
        keep_on(&mut elements, found, filter);
        proof {
            let done = references_unwound(cells, references.take(index as int), filter@, way);
            let more = kept(views(found@), filter@);
            assert((plain + done) + more =~= plain + (done + more));
        }
        index = index + 1;
    }
    proof {
        assert(references.take(cell.references.len() as int) =~= references);
    }
    elements
}

/// The path on which the resolving of a cell of the given name starts.
pub fn path_of(library: &Library, name: &String) -> (path: Vec<usize>)
    ensures
        places(path@) == own_path(library@.cells, name@),
{
    let mut path: Vec<usize> = Vec::new();
    match library.index_of(name) {
        Some(place) => {
            path.push(place);
            assert(places(path@) =~= seq![place as int]);
        },
        None => {
            assert(places(path@) =~= Seq::<int>::empty());
        },
    }
    path
}

/// What a reference stands for when it is resolved `depth` levels deep, or all the way
/// down from the given path where no depth is given.
pub fn expand_to(
    reference: &Reference,
    library: &Library,
    filter: &Vec<(i32, i32)>,
    depth: Option<usize>,
    path: &Vec<usize>,
) -> (elements: Vec<Placed>)
    ensures
        views(elements@) == expanded(library@.cells, reference@, filter@, depth, places(path@)),
{
    match depth {
        Some(count) => flatten_to(reference, library, filter, count),
        None => unwind_to(reference, library, filter, path),
    }
}

impl Reference {
    /// What the reference stands for in `library` when it is resolved `depth` levels
    /// deep, or all the way down where no depth is given. Resolved all the way down, a
    /// reference that leads back to a cell that is being expanded is left as it stands.
    pub fn flatten(
        &self,
        library: &Library,
        layer_data_types: &Vec<(i32, i32)>,
        depth: Option<usize>,
    ) -> (elements: Vec<Placed>)
        ensures
            views(elements@) == expanded(
                library@.cells,
                self@,
                layer_data_types@,
                depth,
                Seq::empty(),
            ),
    {
        let path: Vec<usize> = Vec::new();
        assert(places(path@) =~= Seq::<int>::empty());
        expand_to(self, library, layer_data_types, depth, &path)
    }
}

impl Cell {
    /// The elements of the cell that the filter lets through, with the references
    /// resolved in `library`, `depth` levels deep, or all the way down where no depth is
    /// given. Resolved all the way down, a reference that leads back to a cell that is
    /// being expanded, or to this cell, is left as it stands. The cell stays as it is.
    pub fn get_elements(
        &self,
        library: &Library,
        layer_data_types: &Vec<(i32, i32)>,
        depth: Option<usize>,
    ) -> (elements: Vec<Placed>)
        ensures
            views(elements@) == cell_expanded(library@.cells, self@, layer_data_types@, depth),
    {
        match depth {
            Some(count) => elements_to(self, library, layer_data_types, count),
            None => {
                let path = path_of(library, &self.name);
                unwind_elements_to(self, library, layer_data_types, &path)
            },
        }
    }
}

/// Whether the resolving of a reference never comes back to a cell that is being
/// expanded: whether no circle of references is met from it. `path` holds the places of
/// the cells that are being expanded.
pub open spec fn unwinds(cells: Seq<CellView>, reference: ReferenceView, path: Seq<int>) -> bool
    decreases cells.len() - path.len(), 0nat, nesting(reference),
{
    match reference.instance {
        InstanceView::Cell(name) => {
            let place = place_of(cells, name);
            0 <= place < cells.len() ==> !path.contains(place) && (path.len() < cells.len()
                ==> all_unwind(cells, cells[place].references, path.push(place)))
        },
        InstanceView::Element(element) => match *element {
            ElementView::Reference(inner) => unwinds(cells, inner, path),
            _ => true,
        },
    }
}

/// Whether the resolving of none of the references meets a circle.
pub open spec fn all_unwind(cells: Seq<CellView>, references: Seq<ReferenceView>, path: Seq<int>) -> bool
    decreases cells.len() - path.len(), 1nat, references.len(),
{
    references.len() > 0 ==> all_unwind(cells, references.drop_last(), path) && unwinds(
        cells,
        references.last(),
        path,
    )
}

/// A reference from which no circle is met, resolved all the way down, stands for no
/// reference.
pub proof fn lemma_unwound_concrete(
    cells: Seq<CellView>,
    reference: ReferenceView,
    filter: Seq<(i32, i32)>,
    path: Seq<int>,
)
    requires
        sound(path, cells.len() as int),
        unwinds(cells, reference, path),
    ensures
        concrete(unwound(cells, reference, filter, path)),
    decreases cells.len() - path.len(), 0nat, nesting(reference),
{
    match reference.instance {
        InstanceView::Cell(name) => {
            let place = place_of(cells, name);
            if 0 <= place < cells.len() {
                let next = path.push(place);
                lemma_longer_path(path, place, cells.len() as int);
                let cell = cells[place];
                lemma_unwound_references(cells, cell.references, filter, next);
                lemma_kept(as_placed(polygon_elements(cell.polygons)), filter);
                lemma_kept(as_placed(path_elements(cell.paths)), filter);
                lemma_kept(as_placed(text_elements(cell.texts)), filter);
                lemma_spread_concrete(reference.grid, cell_unwound(cells, cell, filter, next));
            }
        },
        InstanceView::Element(element) => match *element {
            ElementView::Reference(inner) => {
                lemma_unwound_concrete(cells, inner, filter, path);
                lemma_spread_concrete(reference.grid, unwound(cells, inner, filter, path));
            },
            other => {
                lemma_grid_copies(reference.grid, unplaced(other), reference.grid.columns as nat);
            },
        },
    }
}

/// References from which no circle is met, resolved all the way down, stand for no
/// reference.
pub proof fn lemma_unwound_references(
    cells: Seq<CellView>,
    references: Seq<ReferenceView>,
    filter: Seq<(i32, i32)>,
    path: Seq<int>,
)
    requires
        sound(path, cells.len() as int),
        path.len() <= cells.len(),
        all_unwind(cells, references, path),
    ensures
        concrete(references_unwound(cells, references, filter, path)),
    decreases cells.len() - path.len(), 1nat, references.len(),
{
    if references.len() > 0 {
        lemma_unwound_references(cells, references.drop_last(), filter, path);
        lemma_unwound_concrete(cells, references.last(), filter, path);
        lemma_kept(unwound(cells, references.last(), filter, path), filter);
    }
}

/// Resolved all the way down, a cell from whose references no circle is met has no
/// reference left among its elements: only polygons, paths and texts.
pub proof fn lemma_resolved_cell(cells: Seq<CellView>, cell: CellView, filter: Seq<(i32, i32)>)
    requires
        all_unwind(cells, cell.references, own_path(cells, cell.name)),
    ensures
        concrete(cell_expanded(cells, cell, filter, None)),
{
    let path = own_path(cells, cell.name);
    lemma_sound_short(path, cells.len() as int);
    lemma_unwound_references(cells, cell.references, filter, path);
    lemma_kept(as_placed(polygon_elements(cell.polygons)), filter);
    lemma_kept(as_placed(path_elements(cell.paths)), filter);
    lemma_kept(as_placed(text_elements(cell.texts)), filter);
}

/// How many levels deep a reference must be resolved until nothing is left to resolve,
/// where no circle is met from it: one level for the reference itself, and as many as
/// the deepest reference of the cell it places needs, or as the reference it wraps
/// needs.
pub open spec fn depth_of(cells: Seq<CellView>, reference: ReferenceView, path: Seq<int>) -> nat
    decreases cells.len() - path.len(), 0nat, nesting(reference),
{
    match reference.instance {
        InstanceView::Cell(name) => {
            let place = place_of(cells, name);
            if 0 <= place < cells.len() && !path.contains(place) && path.len() < cells.len() {
                1 + deepest(cells, cells[place].references, path.push(place))
            } else {
                1
            }
        },
        InstanceView::Element(element) => match *element {
            ElementView::Reference(inner) => 1 + depth_of(cells, inner, path),
            _ => 1,
        },
    }
}

/// How many levels deep the deepest reference of a list must be resolved.
pub open spec fn deepest(cells: Seq<CellView>, references: Seq<ReferenceView>, path: Seq<int>) -> nat
    decreases cells.len() - path.len(), 1nat, references.len(),
{
    if references.len() == 0 {
        0
    } else {
        let before = deepest(cells, references.drop_last(), path);
        let last = depth_of(cells, references.last(), path);
        if before >= last {
            before
        } else {
            last
        }
    }
}

/// The path with one more place, not yet on it, holds no place twice and is shorter than
/// there are cells.
pub proof fn lemma_longer_path(path: Seq<int>, place: int, count: int)
    requires
        sound(path, count),
        0 <= place < count,
        !path.contains(place),
    ensures
        sound(path.push(place), count),
        path.len() < count,
{
    let next = path.push(place);
    assert forall|i: int, j: int| 0 <= i < next.len() && 0 <= j < next.len() && i != j implies next[i]
        != next[j] by {
        if i < path.len() && j < path.len() {
            assert(path[i] != path[j]);
        }
    }
    lemma_sound_short(next, count);
}

/// Resolved all the way down, a reference from which no circle is met stands for what it
/// stands for at any depth that is deep enough: in a library without circles, to give no
/// depth is to give a depth that is large enough.
pub proof fn lemma_unwound_is_flattened(
    cells: Seq<CellView>,
    reference: ReferenceView,
    filter: Seq<(i32, i32)>,
    path: Seq<int>,
    depth: nat,
)
    requires
        sound(path, cells.len() as int),
        unwinds(cells, reference, path),
        depth >= depth_of(cells, reference, path),
    ensures
        flattened(cells, reference, filter, depth) == unwound(cells, reference, filter, path),
    decreases cells.len() - path.len(), 0nat, nesting(reference),
{
    match reference.instance {
        InstanceView::Cell(name) => {
            let place = place_of(cells, name);
            if 0 <= place < cells.len() {
                let cell = cells[place];
                let next = path.push(place);
                let below = (depth - 1) as nat;
                lemma_longer_path(path, place, cells.len() as int);
                assert(depth_of(cells, reference, path) == 1 + deepest(
                    cells,
                    cell.references,
                    next,
                ));
                assert(all_unwind(cells, cell.references, next));
                lemma_unwound_list(cells, cell.references, filter, next, below);
                assert(cell_elements(cells, cell, filter, below) == cell_unwound(
                    cells,
                    cell,
                    filter,
                    next,
                ));
                assert(flattened(cells, reference, filter, depth) == spread(
                    reference.grid,
                    cell_elements(cells, cell, filter, below),
                ));
            }
        },
        InstanceView::Element(element) => match *element {
            ElementView::Reference(inner) => {
                lemma_unwound_is_flattened(cells, inner, filter, path, (depth - 1) as nat);
            },
            _ => {},
        },
    }
}

/// Resolved all the way down, references from which no circle is met stand for what
/// they stand for at any depth that is deep enough.
pub proof fn lemma_unwound_list(
    cells: Seq<CellView>,
    references: Seq<ReferenceView>,
    filter: Seq<(i32, i32)>,
    path: Seq<int>,
    depth: nat,
)
    requires
        sound(path, cells.len() as int),
        path.len() <= cells.len(),
        all_unwind(cells, references, path),
        depth >= deepest(cells, references, path),
    ensures
        crate::flatten::references_flattened(cells, references, filter, depth)
            == references_unwound(cells, references, filter, path),
    decreases cells.len() - path.len(), 1nat, references.len(),
{
    if references.len() > 0 {
        lemma_unwound_list(cells, references.drop_last(), filter, path, depth);
        lemma_unwound_is_flattened(cells, references.last(), filter, path, depth);
    }
}

/// In a library without circles the elements of a cell, resolved all the way down, are
/// its elements at any depth that is deep enough.
pub proof fn lemma_expanded_is_deep(
    cells: Seq<CellView>,
    cell: CellView,
    filter: Seq<(i32, i32)>,
    depth: nat,
)
    requires
        all_unwind(cells, cell.references, own_path(cells, cell.name)),
        depth >= deepest(cells, cell.references, own_path(cells, cell.name)),
    ensures
        cell_expanded(cells, cell, filter, None) == cell_elements(cells, cell, filter, depth),
{
    let path = own_path(cells, cell.name);
    lemma_sound_short(path, cells.len() as int);
    lemma_unwound_list(cells, cell.references, filter, path, depth);
}

/// What the references of a list stand for, resolved all the way down, goes through the
/// filter.
pub proof fn lemma_unwound_on(
    cells: Seq<CellView>,
    references: Seq<ReferenceView>,
    filter: Seq<(i32, i32)>,
    path: Seq<int>,
)
    ensures
        all_on(references_unwound(cells, references, filter, path), filter),
    decreases references.len(),
{
    if references.len() > 0 {
        lemma_unwound_on(cells, references.drop_last(), filter, path);
        lemma_kept(unwound(cells, references.last(), filter, path), filter);
    }
}

/// The elements of a cell all go through the filter that they were asked for with,
/// whether the references are resolved to a depth or all the way down. Under a filter
/// that is not empty none of them is a reference.
pub proof fn lemma_expanded_on(
    cells: Seq<CellView>,
    cell: CellView,
    filter: Seq<(i32, i32)>,
    depth: Option<usize>,
)
    ensures
        all_on(cell_expanded(cells, cell, filter, depth), filter),
        filter.len() > 0 ==> concrete(cell_expanded(cells, cell, filter, depth)),
{
    lemma_kept(as_placed(polygon_elements(cell.polygons)), filter);
    lemma_kept(as_placed(path_elements(cell.paths)), filter);
    lemma_kept(as_placed(text_elements(cell.texts)), filter);
    match depth {
        Some(count) => {
            crate::flatten::lemma_references_on(cells, cell.references, filter, count as nat);
        },
        None => {
            lemma_unwound_on(cells, cell.references, filter, own_path(cells, cell.name));
        },
    }
    let all = cell_expanded(cells, cell, filter, depth);
    assert(all_on(all, filter));
    if filter.len() > 0 {
        assert forall|i: int| 0 <= i < all.len() implies !((#[trigger] all[i]).element
            is Reference) by {
            assert(all[i].element.on(filter));
        }
    }
}

} // verus!
