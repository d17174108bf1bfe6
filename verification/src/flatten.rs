use vstd::prelude::*;
use crate::cell::{Cell, CellView};
use crate::element::{Element, ElementView, Instance, InstanceView, Reference, ReferenceView};
use crate::grid::Grid;
use crate::library::{place_of, Library};
use crate::path::{Path, PathView};
use crate::polygon::{Polygon, PolygonView};
use crate::text::{Text, TextView};
use crate::traits::{lemma_views_push, views};

verus! {

/// One copy that a grid makes: the grid, and the column and the row of the copy.
#[derive(Debug, Clone, Copy, PartialEq, Eq, Structural)]
pub struct Placement {
    pub grid: Grid,
    pub column: u32,
    pub row: u32,
}

/// An element as flattening finds it: the element as its cell holds it, and the copies
/// through which it is seen, the innermost first. The element is to be mirrored, turned,
/// enlarged and displaced as the first placement says, the result as the second says, and
/// so on. Where the copies turn by whole degrees, enlarge by whole numbers and leave the
/// element on the whole database units, `resolve` gives the element where they put it;
/// where they do not, its image is left to whoever computes with doubles.
#[derive(Debug)]
pub struct Placed {
    pub element: Element,
    pub placements: Vec<Placement>,
}

/// What a placed element is.
pub struct PlacedView {
    pub element: ElementView,
    pub placements: Seq<Placement>,
}

impl View for Placed {
    type V = PlacedView;

    open spec fn view(&self) -> PlacedView {
        PlacedView { element: self.element@, placements: self.placements@ }
    }
}

/// The element as it stands, seen through no copy.
pub open spec fn unplaced(element: ElementView) -> PlacedView {
    PlacedView { element, placements: Seq::empty() }
}

/// The element seen through one more copy, the outermost so far.
pub open spec fn through(placed: PlacedView, placement: Placement) -> PlacedView {
    PlacedView { element: placed.element, placements: placed.placements.push(placement) }
}

/// The copies that the first `rows` rows of one column of a grid make of an element.
pub open spec fn column_copies(grid: Grid, placed: PlacedView, column: u32, rows: nat) -> Seq<
    PlacedView,
> {
    Seq::new(rows, |row: int| through(placed, Placement { grid, column, row: row as u32 }))
}

/// The copies that the first `columns` columns of a grid make of an element: column
/// after column, and in each column row after row.
pub open spec fn grid_copies(grid: Grid, placed: PlacedView, columns: nat) -> Seq<PlacedView>
    decreases columns,
{
    if columns == 0 {
        Seq::empty()
    } else {
        grid_copies(grid, placed, (columns - 1) as nat) + column_copies(
            grid,
            placed,
            (columns - 1) as u32,
            grid.rows as nat,
        )
    }
}

/// The copies that a grid makes of an element. A grid without columns or without rows
/// makes none.
pub open spec fn in_grid(grid: Grid, placed: PlacedView) -> Seq<PlacedView> {
    grid_copies(grid, placed, grid.columns as nat)
}

/// The copies that a grid makes of each element of a list, element after element.
pub open spec fn spread(grid: Grid, list: Seq<PlacedView>) -> Seq<PlacedView>
    decreases list.len(),
{
    if list.len() == 0 {
        Seq::empty()
    } else {
        spread(grid, list.drop_last()) + in_grid(grid, list.last())
    }
}

/// The elements of a list that a filter lets through, in order.
pub open spec fn kept(list: Seq<PlacedView>, filter: Seq<(i32, i32)>) -> Seq<PlacedView>
    decreases list.len(),
{
    if list.len() == 0 {
        Seq::empty()
    } else if list.last().element.on(filter) {
        kept(list.drop_last(), filter).push(list.last())
    } else {
        kept(list.drop_last(), filter)
    }
}

/// The elements of a list, each as it stands.
pub open spec fn as_placed(list: Seq<ElementView>) -> Seq<PlacedView> {
    Seq::new(list.len(), |i: int| unplaced(list[i]))
}

/// The polygons, as elements.
pub open spec fn polygon_elements(list: Seq<PolygonView>) -> Seq<ElementView> {
    Seq::new(list.len(), |i: int| ElementView::Polygon(list[i]))
}

/// The paths, as elements.
pub open spec fn path_elements(list: Seq<PathView>) -> Seq<ElementView> {
    Seq::new(list.len(), |i: int| ElementView::Path(list[i]))
}

/// The texts, as elements.
pub open spec fn text_elements(list: Seq<TextView>) -> Seq<ElementView> {
    Seq::new(list.len(), |i: int| ElementView::Text(list[i]))
}

/// The references, as elements.
pub open spec fn reference_elements(list: Seq<ReferenceView>) -> Seq<ElementView> {
    Seq::new(list.len(), |i: int| ElementView::Reference(list[i]))
}

/// What a reference stands for when it is resolved `depth` levels deep, in the library
/// with the given cells and under the given filter.
///
/// At depth 0 it stands for itself, unexpanded. Else a reference to a cell stands for
/// the copies that its grid makes of what the cell holds one level less deep; a cell
/// that the library does not hold counts as empty. A reference to a polygon, a path or a
/// text stands for the copies of that element, if the filter lets it through. A
/// reference to a reference stands for the copies that its grid makes of what the inner
/// reference stands for one level less deep.
pub open spec fn flattened(
    cells: Seq<CellView>,
    reference: ReferenceView,
    filter: Seq<(i32, i32)>,
    depth: nat,
) -> Seq<PlacedView>
    decreases depth, 0nat, 0nat,
{
    if depth == 0 {
        seq![unplaced(ElementView::Reference(reference))]
    } else {
        match reference.instance {
            InstanceView::Cell(name) => {
                let place = place_of(cells, name);
                if 0 <= place < cells.len() {
                    spread(
                        reference.grid,
                        cell_elements(cells, cells[place], filter, (depth - 1) as nat),
                    )
                } else {
                    Seq::empty()
                }
            },
            InstanceView::Element(element) => match *element {
                ElementView::Reference(inner) => spread(
                    reference.grid,
                    flattened(cells, inner, filter, (depth - 1) as nat),
                ),
                other => if other.on(filter) {
                    in_grid(reference.grid, unplaced(other))
                } else {
                    Seq::empty()
                },
            },
        }
    }
}

/// What the references of a list stand for, one after the other, as far as the filter
/// lets it through.
pub open spec fn references_flattened(
    cells: Seq<CellView>,
    references: Seq<ReferenceView>,
    filter: Seq<(i32, i32)>,
    depth: nat,
) -> Seq<PlacedView>
    decreases depth, 1nat, references.len(),
{
    if references.len() == 0 {
        Seq::empty()
    } else {
        references_flattened(cells, references.drop_last(), filter, depth) + kept(
            flattened(cells, references.last(), filter, depth),
            filter,
        )
    }
}

/// The polygons, the paths and the texts of a cell that the filter lets through, each as
/// it stands.
pub open spec fn direct(cell: CellView, filter: Seq<(i32, i32)>) -> Seq<PlacedView> {
    kept(as_placed(polygon_elements(cell.polygons)), filter) + kept(
        as_placed(path_elements(cell.paths)),
        filter,
    ) + kept(as_placed(text_elements(cell.texts)), filter)
}

/// The elements of a cell with its references resolved `depth` levels deep: the
/// polygons, the paths and the texts that the filter lets through, each as it stands,
/// then what the references stand for.
pub open spec fn cell_elements(
    cells: Seq<CellView>,
    cell: CellView,
    filter: Seq<(i32, i32)>,
    depth: nat,
) -> Seq<PlacedView>
    decreases depth, 2nat, 0nat,
{
    direct(cell, filter) + references_flattened(cells, cell.references, filter, depth)
}


/// The views of one list after another are the views of the lists joined.
pub proof fn lemma_views_concat<T: View>(first: Seq<T>, second: Seq<T>)
    ensures
        views(first + second) == views(first) + views(second),
{
    assert(views(first + second) =~= views(first) + views(second));
}

/// A copy of a list of placements.
fn copy_placements(placements: &Vec<Placement>) -> (copy: Vec<Placement>)
    ensures
        copy@ == placements@,
{
    let mut copy: Vec<Placement> = Vec::new();
    let mut index: usize = 0;
    while index < placements.len()
        invariant
            index <= placements.len(),
            copy@ == placements@.take(index as int),
        decreases placements.len() - index,
    {
        copy.push(placements[index]);
        assert(placements@.take(index + 1) =~= placements@.take(index as int).push(
            placements@[index as int],
        ));
        index = index + 1;
    }
    assert(placements@.take(placements.len() as int) =~= placements@);
    copy
}

impl Placed {
    /// The element as it stands, seen through no copy.
    pub fn new(element: Element) -> (placed: Placed)
        ensures
            placed@ == unplaced(element@),
    {
        Placed { element, placements: Vec::new() }
    }

    /// A copy of the placed element.
    pub fn copy(&self) -> (placed: Placed)
        ensures
            placed@ == self@,
    {
        Placed { element: self.element.copy(), placements: copy_placements(&self.placements) }
    }

    /// A copy of the placed element, seen through one more copy.
    pub fn through(&self, placement: Placement) -> (placed: Placed)
        ensures
            placed@ == through(self@, placement),
    {
        let mut placements = copy_placements(&self.placements);
        placements.push(placement);
        Placed { element: self.element.copy(), placements }
    }
}

/// The copies that a grid makes of an element: column after column, and in each column
/// row after row.
pub fn copies_in_grid(grid: Grid, element: &Placed) -> (copies: Vec<Placed>)
    ensures
        views(copies@) == in_grid(grid, element@),
{
    let mut copies: Vec<Placed> = Vec::new();
    let mut column: u32 = 0;
    proof {
        assert(views(copies@) =~= Seq::<PlacedView>::empty());
    }
    while column < grid.columns
        invariant
            column <= grid.columns,
            views(copies@) == grid_copies(grid, element@, column as nat),
        decreases grid.columns - column,
    {
        let mut row: u32 = 0;
        proof {
            assert(column_copies(grid, element@, column, 0) =~= Seq::<PlacedView>::empty());
            assert(views(copies@) + Seq::<PlacedView>::empty() =~= views(copies@));
        }
        while row < grid.rows
            invariant
                row <= grid.rows,
                column < grid.columns,
                views(copies@) == grid_copies(grid, element@, column as nat) + column_copies(
                    grid,
                    element@,
                    column,
                    row as nat,
                ),
            decreases grid.rows - row,
        {
            let placement = Placement { grid, column, row };
            let copy = element.through(placement);
            proof {
                lemma_views_push(copies@, copy);
                assert(column_copies(grid, element@, column, (row + 1) as nat) =~= column_copies(
                    grid,
                    element@,
                    column,
                    row as nat,
                ).push(through(element@, placement)));
                assert((grid_copies(grid, element@, column as nat) + column_copies(
                    grid,
                    element@,
                    column,
                    row as nat,
                )).push(copy@) =~= grid_copies(grid, element@, column as nat) + column_copies(
                    grid,
                    element@,
                    column,
                    (row + 1) as nat,
                ));
            }
            copies.push(copy);
            row = row + 1;
        }
        column = column + 1;
    }
    copies
}

/// The copies that a grid makes of each element of a list, element after element.
pub fn spread_in_grid(grid: Grid, list: &Vec<Placed>) -> (copies: Vec<Placed>)
    ensures
        views(copies@) == spread(grid, views(list@)),
{
    let mut copies: Vec<Placed> = Vec::new();
    let mut index: usize = 0;
    proof {
        assert(views(copies@) =~= Seq::<PlacedView>::empty());
        assert(views(list@).take(0) =~= Seq::<PlacedView>::empty());
    }
    while index < list.len()
        invariant
            index <= list.len(),
            views(copies@) == spread(grid, views(list@).take(index as int)),
        decreases list.len() - index,
    {
        let mut more = copies_in_grid(grid, &list[index]);
        proof {
            let next = views(list@).take(index + 1);
            assert(next.drop_last() =~= views(list@).take(index as int));
            assert(next.last() == list@[index as int]@);
            lemma_views_concat(copies@, more@);
        }
        copies.append(&mut more);
        index = index + 1;
    }
    proof {
        assert(views(list@).take(list.len() as int) =~= views(list@));
    }
    copies
}

/// Moves to the end of `into` the elements of `list` that the filter lets through.
pub fn keep_on(into: &mut Vec<Placed>, list: Vec<Placed>, filter: &Vec<(i32, i32)>)
    ensures
        views(final(into)@) == views(old(into)@) + kept(views(list@), filter@),
{
    let mut index: usize = 0;
    proof {
        assert(views(list@).take(0) =~= Seq::<PlacedView>::empty());
        assert(views(into@) + Seq::<PlacedView>::empty() =~= views(into@));
    }
    while index < list.len()
        invariant
            index <= list.len(),
            views(into@) == views(old(into)@) + kept(views(list@).take(index as int), filter@),
        decreases list.len() - index,
    {
        proof {
            let next = views(list@).take(index + 1);
            assert(next.drop_last() =~= views(list@).take(index as int));
            assert(next.last() == list@[index as int]@);
        }
        if list[index].element.is_on(filter) {
            let copy = list[index].copy();
            proof {
                lemma_views_push(into@, copy);
                let before = kept(views(list@).take(index as int), filter@);
                assert((views(old(into)@) + before).push(copy@) =~= views(old(into)@) + before.push(
                    copy@,
                ));
            }
            into.push(copy);
        }
        index = index + 1;
    }
    proof {
        assert(views(list@).take(list.len() as int) =~= views(list@));
    }
}

/// What a reference stands for when it is resolved `depth` levels deep.
pub fn flatten_to(
    reference: &Reference,
    library: &Library,
    filter: &Vec<(i32, i32)>,
    depth: usize,
) -> (elements: Vec<Placed>)
    ensures
        views(elements@) == flattened(library@.cells, reference@, filter@, depth as nat),
    decreases depth, 0nat, 0nat,
{
    if depth == 0 {
        let mut elements: Vec<Placed> = Vec::new();
        let placed = Placed::new(Element::Reference(reference.copy()));
        proof {
            lemma_views_push(elements@, placed);
            assert(views(elements@) =~= Seq::<PlacedView>::empty());
            assert(Seq::<PlacedView>::empty().push(placed@) =~= seq![placed@]);
        }
        elements.push(placed);
        return elements;
    }
    match &reference.instance {
        Instance::Cell(name) => {
            match library.index_of(name) {
                Some(place) => {
                    assert(library@.cells[place as int] == library.cells@[place as int]@);
                    let inner = elements_to(&library.cells[place], library, filter, depth - 1);
                    spread_in_grid(reference.grid, &inner)
                },
                None => {
                    let elements: Vec<Placed> = Vec::new();
                    assert(views(elements@) =~= Seq::<PlacedView>::empty());
                    elements
                },
            }
        },
        Instance::Element(element) => {
            match &**element {
                Element::Reference(inner) => {
                    let below = flatten_to(inner, library, filter, depth - 1);
                    spread_in_grid(reference.grid, &below)
                },
                other => {
                    if other.is_on(filter) {
                        let placed = Placed::new(other.copy());
                        copies_in_grid(reference.grid, &placed)
                    } else {
                        let elements: Vec<Placed> = Vec::new();
                        assert(views(elements@) =~= Seq::<PlacedView>::empty());
                        elements
                    }
                },
            }
        },
    }
}

/// The polygons, the paths and the texts of a cell that the filter lets through.
pub fn direct_to(cell: &Cell, filter: &Vec<(i32, i32)>) -> (elements: Vec<Placed>)
    ensures
        views(elements@) == direct(cell@, filter@),
{
    let mut elements: Vec<Placed> = Vec::new();
    proof {
        assert(views(elements@) =~= Seq::<PlacedView>::empty());
    }
    let ghost polygons = as_placed(polygon_elements(cell@.polygons));
    let ghost paths = as_placed(path_elements(cell@.paths));
    let ghost texts = as_placed(text_elements(cell@.texts));
    let mut index: usize = 0;
    proof {
        assert(polygons.take(0) =~= Seq::<PlacedView>::empty());
    }
    while index < cell.polygons.len()
        invariant
            index <= cell.polygons.len(),
            polygons == as_placed(polygon_elements(cell@.polygons)),
            views(elements@) == kept(polygons.take(index as int), filter@),
        decreases cell.polygons.len() - index,
    {
        proof {
            let next = polygons.take(index + 1);
            assert(next.drop_last() =~= polygons.take(index as int));
            assert(next.last() == unplaced(ElementView::Polygon(cell.polygons@[index as int]@)));
        }
        if cell.polygons[index].is_on(filter) {
            let placed = Placed::new(Element::Polygon(cell.polygons[index].copy()));
            proof {
                lemma_views_push(elements@, placed);
            }
            elements.push(placed);
        }
        index = index + 1;
    }
    proof {
        assert(polygons.take(cell.polygons.len() as int) =~= polygons);
        assert(paths.take(0) =~= Seq::<PlacedView>::empty());
        assert(views(elements@) + Seq::<PlacedView>::empty() =~= views(elements@));
    }
    index = 0;
    while index < cell.paths.len()
        invariant
            index <= cell.paths.len(),
            paths == as_placed(path_elements(cell@.paths)),
            views(elements@) == kept(polygons, filter@) + kept(paths.take(index as int), filter@),
        decreases cell.paths.len() - index,
    {
        proof {
            let next = paths.take(index + 1);
            assert(next.drop_last() =~= paths.take(index as int));
            assert(next.last() == unplaced(ElementView::Path(cell.paths@[index as int]@)));
        }
        if cell.paths[index].is_on(filter) {
            let placed = Placed::new(Element::Path(cell.paths[index].copy()));
            proof {
                lemma_views_push(elements@, placed);
                let before = kept(paths.take(index as int), filter@);
                assert((kept(polygons, filter@) + before).push(placed@) =~= kept(polygons, filter@)
                    + before.push(placed@));
            }
            elements.push(placed);
        }
        index = index + 1;
    }
    proof {
        assert(paths.take(cell.paths.len() as int) =~= paths);
        assert(texts.take(0) =~= Seq::<PlacedView>::empty());
        assert(views(elements@) + Seq::<PlacedView>::empty() =~= views(elements@));
    }
    index = 0;
    while index < cell.texts.len()
        invariant
            index <= cell.texts.len(),
            texts == as_placed(text_elements(cell@.texts)),
            views(elements@) == kept(polygons, filter@) + kept(paths, filter@) + kept(
                texts.take(index as int),
                filter@,
            ),
        decreases cell.texts.len() - index,
    {
        proof {
            let next = texts.take(index + 1);
            assert(next.drop_last() =~= texts.take(index as int));
            assert(next.last() == unplaced(ElementView::Text(cell.texts@[index as int]@)));
        }
        if cell.texts[index].is_on(filter) {
            let placed = Placed::new(Element::Text(cell.texts[index].copy()));
            proof {
                lemma_views_push(elements@, placed);
                let before = kept(texts.take(index as int), filter@);
                assert((kept(polygons, filter@) + kept(paths, filter@) + before).push(placed@)
                    =~= kept(polygons, filter@) + kept(paths, filter@) + before.push(placed@));
            }
            elements.push(placed);
        }
        index = index + 1;
    }
    proof {
        assert(texts.take(cell.texts.len() as int) =~= texts);
    }
    elements
}

/// The elements of a cell with its references resolved `depth` levels deep.
pub fn elements_to(cell: &Cell, library: &Library, filter: &Vec<(i32, i32)>, depth: usize) -> (elements:
    Vec<Placed>)
    ensures
        views(elements@) == cell_elements(library@.cells, cell@, filter@, depth as nat),
    decreases depth, 2nat, 0nat,
{
    let ghost cells = library@.cells;
    let mut elements = direct_to(cell, filter);
    let ghost plain = direct(cell@, filter@);
    let ghost references = cell@.references;
    proof {
        assert(references.take(0) =~= Seq::<ReferenceView>::empty());
        assert(views(elements@) + Seq::<PlacedView>::empty() =~= views(elements@));
    }
    let mut index: usize = 0;
    while index < cell.references.len()
        invariant
            index <= cell.references.len(),
            cells == library@.cells,
            references == cell@.references,
            plain == direct(cell@, filter@),
            views(elements@) == plain + references_flattened(
                cells,
                references.take(index as int),
                filter@,
                depth as nat,
            ),
        decreases cell.references.len() - index,
    {
        let found = flatten_to(&cell.references[index], library, filter, depth);
        let ghost before = views(elements@);
        proof {
            let next = references.take(index + 1);
            assert(next.drop_last() =~= references.take(index as int));
            assert(next.last() == cell.references@[index as int]@);
        }
        keep_on(&mut elements, found, filter);
        proof {
            let done = references_flattened(
                cells,
                references.take(index as int),
                filter@,
                depth as nat,
            );
            let more = kept(views(found@), filter@);
            assert((plain + done) + more =~= plain + (done + more));
        }
        index = index + 1;
    }
    proof {
        assert(references.take(cell.references.len() as int) =~= references);
    }
    elements
}

impl Reference {
    /// The copies that the grid of the reference makes of an element: column after
    /// column, and in each column row after row.
    pub fn _get_elements_in_grid(&self, element: &Placed) -> (copies: Vec<Placed>)
        ensures
            views(copies@) == in_grid(self@.grid, element@),
    {
        copies_in_grid(self.grid, element)
    }
}

/// Whether no element of the list is a reference.
pub open spec fn concrete(list: Seq<PlacedView>) -> bool {
    forall|i: int| 0 <= i < list.len() ==> !((#[trigger] list[i]).element is Reference)
}

/// Whether every element of the list goes through the filter.
pub open spec fn all_on(list: Seq<PlacedView>, filter: Seq<(i32, i32)>) -> bool {
    forall|i: int| 0 <= i < list.len() ==> (#[trigger] list[i]).element.on(filter)
}

/// Whether the reference can be resolved for good within `fuel` levels: whether that
/// deep no reference is left in what it stands for. A library whose references run in a
/// circle has references for which no fuel is enough.
pub open spec fn settles(cells: Seq<CellView>, reference: ReferenceView, fuel: nat) -> bool
    decreases fuel,
{
    fuel > 0 && match reference.instance {
        InstanceView::Cell(name) => {
            let place = place_of(cells, name);
            0 <= place < cells.len() ==> forall|i: int|
                0 <= i < cells[place].references.len() ==> settles(
                    cells,
                    #[trigger] cells[place].references[i],
                    (fuel - 1) as nat,
                )
        },
        InstanceView::Element(element) => match *element {
            ElementView::Reference(inner) => settles(cells, inner, (fuel - 1) as nat),
            _ => true,
        },
    }
}

/// Every copy that a grid makes of an element holds that element.
pub proof fn lemma_grid_copies(grid: Grid, placed: PlacedView, columns: nat)
    ensures
        forall|k: int|
            0 <= k < grid_copies(grid, placed, columns).len() ==> (#[trigger] grid_copies(
                grid,
                placed,
                columns,
            )[k]).element == placed.element,
        grid_copies(grid, placed, columns).len() == columns * grid.rows,
    decreases columns,
{
    let rows = grid.rows as int;
    if columns > 0 {
        lemma_grid_copies(grid, placed, (columns - 1) as nat);
        let fewer = (columns - 1) as int;
        assert((fewer + 1) * rows == fewer * rows + rows) by (nonlinear_arith);
    } else {
        assert(0 * rows == 0) by (nonlinear_arith);
    }
}

/// A grid makes as many copies of an element as it has columns times rows.
pub proof fn lemma_in_grid_count(grid: Grid, placed: PlacedView)
    ensures
        in_grid(grid, placed).len() == grid.columns * grid.rows,
{
    lemma_grid_copies(grid, placed, grid.columns as nat);
}

/// Among the copies that the first columns of a grid make of an element, the copy of a
/// column and a row stands at the place of that column times the number of rows, plus
/// the row.
pub proof fn lemma_copy_at(grid: Grid, placed: PlacedView, columns: nat, column: u32, row: u32)
    requires
        column < columns,
        columns <= u32::MAX,
        row < grid.rows,
    ensures
        0 <= column * grid.rows + row < grid_copies(grid, placed, columns).len(),
        grid_copies(grid, placed, columns)[column * grid.rows + row] == through(
            placed,
            Placement { grid, column, row },
        ),
    decreases columns,
{
    let rows = grid.rows as int;
    let fewer = (columns - 1) as nat;
    lemma_grid_copies(grid, placed, columns);
    lemma_grid_copies(grid, placed, fewer);
    assert(column * rows + row < (column + 1) * rows) by (nonlinear_arith)
        requires
            0 <= row < rows,
    ;
    if column == fewer {
        assert(column * rows == fewer * rows);
        assert(column_copies(grid, placed, fewer as u32, grid.rows as nat)[row as int] == through(
            placed,
            Placement { grid, column, row },
        ));
    } else {
        assert((column + 1) * rows <= fewer * rows) by (nonlinear_arith)
            requires
                column + 1 <= fewer,
                0 <= rows,
        ;
        lemma_copy_at(grid, placed, fewer, column, row);
    }
}

/// The copies that a grid makes of an element are as many as its columns times its
/// rows; the copy of a column and a row stands at the place of that column times the
/// number of rows, plus the row; and each holds the element untouched.
pub proof fn lemma_in_grid_at(grid: Grid, placed: PlacedView, column: u32, row: u32)
    requires
        column < grid.columns,
        row < grid.rows,
    ensures
        in_grid(grid, placed).len() == grid.columns * grid.rows,
        0 <= column * grid.rows + row < in_grid(grid, placed).len(),
        in_grid(grid, placed)[column * grid.rows + row] == through(
            placed,
            Placement { grid, column, row },
        ),
        in_grid(grid, placed)[column * grid.rows + row].element == placed.element,
{
    lemma_grid_copies(grid, placed, grid.columns as nat);
    lemma_copy_at(grid, placed, grid.columns as nat, column, row);
}

/// The copies that a grid makes of the elements of a list are as many as the elements
/// times the columns times the rows of the grid: each level of references multiplies
/// the number of elements by the size of its grid.
pub proof fn lemma_spread_count(grid: Grid, list: Seq<PlacedView>)
    ensures
        spread(grid, list).len() == list.len() * (grid.columns * grid.rows),
    decreases list.len(),
{
    let size = grid.columns * grid.rows;
    if list.len() > 0 {
        lemma_spread_count(grid, list.drop_last());
        lemma_in_grid_count(grid, list.last());
        let fewer = list.len() - 1;
        assert((fewer + 1) * size == fewer * size + size) by (nonlinear_arith);
    } else {
        assert(0 * size == 0) by (nonlinear_arith);
    }
}

/// What is kept of a list goes through the filter, and holds no reference if the list
/// holds none.
pub proof fn lemma_kept(list: Seq<PlacedView>, filter: Seq<(i32, i32)>)
    ensures
        all_on(kept(list, filter), filter),
        concrete(list) ==> concrete(kept(list, filter)),
        all_on(list, filter) ==> kept(list, filter) == list,
    decreases list.len(),
{
    if list.len() > 0 {
        lemma_kept(list.drop_last(), filter);
        if concrete(list) {
            assert forall|i: int| 0 <= i < list.drop_last().len() implies !((
            #[trigger] list.drop_last()[i]).element is Reference) by {
                assert(list.drop_last()[i] == list[i]);
            }
            assert(!(list[list.len() - 1].element is Reference));
        }
        if all_on(list, filter) {
            assert forall|i: int| 0 <= i < list.drop_last().len() implies (
            #[trigger] list.drop_last()[i]).element.on(filter) by {
                assert(list.drop_last()[i] == list[i]);
            }
            assert(list[list.len() - 1].element.on(filter));
            assert(list.drop_last().push(list.last()) =~= list);
        }
    } else {
        assert(kept(list, filter) =~= list);
    }
}

/// The copies that a grid makes of elements that are no references are no references.
pub proof fn lemma_spread_concrete(grid: Grid, list: Seq<PlacedView>)
    requires
        concrete(list),
    ensures
        concrete(spread(grid, list)),
    decreases list.len(),
{
    if list.len() > 0 {
        assert forall|i: int| 0 <= i < list.drop_last().len() implies !((
        #[trigger] list.drop_last()[i]).element is Reference) by {
            assert(list.drop_last()[i] == list[i]);
        }
        lemma_spread_concrete(grid, list.drop_last());
        lemma_grid_copies(grid, list.last(), grid.columns as nat);
        assert(!(list[list.len() - 1].element is Reference));
    }
}

/// A reference resolved to depth 0 stands for itself, unexpanded.
pub proof fn lemma_depth_zero(
    cells: Seq<CellView>,
    reference: ReferenceView,
    filter: Seq<(i32, i32)>,
)
    ensures
        flattened(cells, reference, filter, 0) == seq![
            unplaced(ElementView::Reference(reference)),
        ],
{
}

/// Under the empty filter and at depth 0, the references of a list stand for
/// themselves.
pub proof fn lemma_references_unexpanded(cells: Seq<CellView>, references: Seq<ReferenceView>)
    ensures
        references_flattened(cells, references, Seq::empty(), 0) == as_placed(
            reference_elements(references),
        ),
    decreases references.len(),
{
    let filter = Seq::<(i32, i32)>::empty();
    if references.len() == 0 {
        assert(as_placed(reference_elements(references)) =~= Seq::<PlacedView>::empty());
    } else {
        lemma_references_unexpanded(cells, references.drop_last());
        let one = seq![unplaced(ElementView::Reference(references.last()))];
        assert(flattened(cells, references.last(), filter, 0) == one);
        assert(one[0].element.on(filter));
        assert(all_on(one, filter));
        lemma_kept(one, filter);
        assert(as_placed(reference_elements(references)) =~= as_placed(
            reference_elements(references.drop_last()),
        ) + one);
    }
}

/// Under the empty filter and at depth 0, the elements of a cell are all that it holds,
/// each as it stands: its polygons, its paths, its texts, and its references
/// unexpanded.
pub proof fn lemma_cell_unexpanded(cells: Seq<CellView>, cell: CellView)
    ensures
        cell_elements(cells, cell, Seq::empty(), 0) == as_placed(polygon_elements(cell.polygons))
            + as_placed(path_elements(cell.paths)) + as_placed(text_elements(cell.texts))
            + as_placed(reference_elements(cell.references)),
{
    let filter = Seq::<(i32, i32)>::empty();
    lemma_kept(as_placed(polygon_elements(cell.polygons)), filter);
    lemma_kept(as_placed(path_elements(cell.paths)), filter);
    lemma_kept(as_placed(text_elements(cell.texts)), filter);
    lemma_references_unexpanded(cells, cell.references);
}

/// A reference to a cell of the library, resolved to depth 1 under the empty filter,
/// stands for the copies of all that the cell holds: one level is expanded, and the
/// references of the cell are left as they stand.
pub proof fn lemma_one_level(cells: Seq<CellView>, reference: ReferenceView, name: Seq<char>)
    requires
        reference.instance == InstanceView::Cell(name),
        0 <= place_of(cells, name) < cells.len(),
    ensures
        flattened(cells, reference, Seq::empty(), 1) == spread(
            reference.grid,
            as_placed(polygon_elements(cells[place_of(cells, name)].polygons)) + as_placed(
                path_elements(cells[place_of(cells, name)].paths),
            ) + as_placed(text_elements(cells[place_of(cells, name)].texts)) + as_placed(
                reference_elements(cells[place_of(cells, name)].references),
            ),
        ),
{
    lemma_cell_unexpanded(cells, cells[place_of(cells, name)]);
}

/// A reference that settles within `fuel` levels and is resolved at least that deep
/// stands for no reference.
pub proof fn lemma_settled_flat(
    cells: Seq<CellView>,
    reference: ReferenceView,
    filter: Seq<(i32, i32)>,
    fuel: nat,
    depth: nat,
)
    requires
        settles(cells, reference, fuel),
        depth >= fuel,
    ensures
        concrete(flattened(cells, reference, filter, depth)),
    decreases fuel, 0nat, 0nat,
{
    match reference.instance {
        InstanceView::Cell(name) => {
            let place = place_of(cells, name);
            if 0 <= place < cells.len() {
                let cell = cells[place];
                let below = (depth - 1) as nat;
                lemma_settled_references(
                    cells,
                    cell.references,
                    filter,
                    (fuel - 1) as nat,
                    below,
                );
                let polygons = kept(as_placed(polygon_elements(cell.polygons)), filter);
                let paths = kept(as_placed(path_elements(cell.paths)), filter);
                let texts = kept(as_placed(text_elements(cell.texts)), filter);
                lemma_kept(as_placed(polygon_elements(cell.polygons)), filter);
                lemma_kept(as_placed(path_elements(cell.paths)), filter);
                lemma_kept(as_placed(text_elements(cell.texts)), filter);
                lemma_spread_concrete(reference.grid, cell_elements(cells, cell, filter, below));
            }
        },
        InstanceView::Element(element) => match *element {
            ElementView::Reference(inner) => {
                lemma_settled_flat(cells, inner, filter, (fuel - 1) as nat, (depth - 1) as nat);
                lemma_spread_concrete(
                    reference.grid,
                    flattened(cells, inner, filter, (depth - 1) as nat),
                );
            },
            other => {
                lemma_grid_copies(reference.grid, unplaced(other), reference.grid.columns as nat);
            },
        },
    }
}

/// References that all settle within `fuel` levels and are resolved at least that deep
/// stand for no reference.
pub proof fn lemma_settled_references(
    cells: Seq<CellView>,
    references: Seq<ReferenceView>,
    filter: Seq<(i32, i32)>,
    fuel: nat,
    depth: nat,
)
    requires
        forall|i: int| 0 <= i < references.len() ==> settles(cells, #[trigger] references[i], fuel),
        depth >= fuel,
    ensures
        concrete(references_flattened(cells, references, filter, depth)),
    decreases fuel, 1nat, references.len(),
{
    if references.len() > 0 {
        assert forall|i: int| 0 <= i < references.drop_last().len() implies settles(
            cells,
            #[trigger] references.drop_last()[i],
            fuel,
        ) by {
            assert(references.drop_last()[i] == references[i]);
        }
        lemma_settled_references(cells, references.drop_last(), filter, fuel, depth);
        assert(settles(cells, references[references.len() - 1], fuel));
        lemma_settled_flat(cells, references.last(), filter, fuel, depth);
        lemma_kept(flattened(cells, references.last(), filter, depth), filter);
    }
}

/// What the references of a list stand for goes through the filter.
pub proof fn lemma_references_on(
    cells: Seq<CellView>,
    references: Seq<ReferenceView>,
    filter: Seq<(i32, i32)>,
    depth: nat,
)
    ensures
        all_on(references_flattened(cells, references, filter, depth), filter),
    decreases references.len(),
{
    if references.len() > 0 {
        lemma_references_on(cells, references.drop_last(), filter, depth);
        lemma_kept(flattened(cells, references.last(), filter, depth), filter);
    }
}

/// The elements of a cell all go through the filter that they were asked for with,
/// however deep the references are resolved. Under a filter that is not empty each of
/// them is therefore a polygon or a path whose layer and data type are a pair of the
/// filter, or a text whose layer is the layer of a pair, and none is a reference.
pub proof fn lemma_elements_on(
    cells: Seq<CellView>,
    cell: CellView,
    filter: Seq<(i32, i32)>,
    depth: nat,
)
    ensures
        all_on(cell_elements(cells, cell, filter, depth), filter),
        filter.len() > 0 ==> forall|i: int|
            0 <= i < cell_elements(cells, cell, filter, depth).len() ==> match (
            #[trigger] cell_elements(cells, cell, filter, depth)[i]).element {
                ElementView::Polygon(polygon) => filter.contains(
                    (polygon.layer, polygon.data_type),
                ),
                ElementView::Path(path) => filter.contains((path.layer, path.data_type)),
                ElementView::Text(text) => exists|k: int|
                    0 <= k < filter.len() && (#[trigger] filter[k]).0 == text.layer,
                ElementView::Reference(_) => false,
            },
{
    lemma_kept(as_placed(polygon_elements(cell.polygons)), filter);
    lemma_kept(as_placed(path_elements(cell.paths)), filter);
    lemma_kept(as_placed(text_elements(cell.texts)), filter);
    lemma_references_on(cells, cell.references, filter, depth);
    let all = cell_elements(cells, cell, filter, depth);
    assert(all_on(all, filter));
    if filter.len() > 0 {
        assert forall|i: int| 0 <= i < all.len() implies match (#[trigger] all[i]).element {
            ElementView::Polygon(polygon) => filter.contains((polygon.layer, polygon.data_type)),
            ElementView::Path(path) => filter.contains((path.layer, path.data_type)),
            ElementView::Text(text) => exists|k: int|
                0 <= k < filter.len() && (#[trigger] filter[k]).0 == text.layer,
            ElementView::Reference(_) => false,
        } by {
            assert(all[i].element.on(filter));
        }
    }
}

/// Under the empty filter nothing is left out: the elements of a cell are all its
/// polygons, paths and texts, and all that its references stand for.
pub proof fn lemma_elements_all(cells: Seq<CellView>, cell: CellView, depth: nat)
    ensures
        cell_elements(cells, cell, Seq::empty(), depth) == as_placed(
            polygon_elements(cell.polygons),
        ) + as_placed(path_elements(cell.paths)) + as_placed(text_elements(cell.texts))
            + references_flattened(cells, cell.references, Seq::empty(), depth),
{
    let filter = Seq::<(i32, i32)>::empty();
    lemma_kept(as_placed(polygon_elements(cell.polygons)), filter);
    lemma_kept(as_placed(path_elements(cell.paths)), filter);
    lemma_kept(as_placed(text_elements(cell.texts)), filter);
}


/// Whether every reference of the list settles within `fuel` levels.
pub open spec fn all_settle(cells: Seq<CellView>, references: Seq<ReferenceView>, fuel: nat) -> bool {
    forall|i: int| 0 <= i < references.len() ==> settles(cells, #[trigger] references[i], fuel)
}

/// Whether the reference settles within `fuel` levels.
fn settles_to(reference: &Reference, library: &Library, fuel: usize) -> (settled: bool)
    ensures
        settled == settles(library@.cells, reference@, fuel as nat),
    decreases fuel, 0nat,
{
    if fuel == 0 {
        return false;
    }
    match &reference.instance {
        Instance::Cell(name) => {
            match library.index_of(name) {
                Some(place) => {
                    assert(library@.cells[place as int] == library.cells@[place as int]@);
                    let settled = all_settle_to(&library.cells[place].references, library, fuel - 1);
                    proof {
                        let cells = library@.cells;
                        let references = cells[place as int].references;
                        assert(references == views(library.cells@[place as int].references@));
                        assert(place_of(cells, name@) == place);
                        assert(reference@.instance == InstanceView::Cell(name@));
                        assert(settles(cells, reference@, fuel as nat) == all_settle(
                            cells,
                            references,
                            (fuel - 1) as nat,
                        ));
                    }
                    settled
                },
                None => {
                    proof {
                        assert(place_of(library@.cells, name@) == -1);
                        assert(reference@.instance == InstanceView::Cell(name@));
                    }
                    true
                },
            }
        },
        Instance::Element(element) => {
            assert(reference@.instance == InstanceView::Element(Box::new(element@)));
            match &**element {
                Element::Reference(inner) => settles_to(inner, library, fuel - 1),
                _ => true,
            }
        },
    }
}

/// Whether every reference of the list settles within `fuel` levels.
fn all_settle_to(references: &Vec<Reference>, library: &Library, fuel: usize) -> (settled: bool)
    ensures
        settled == all_settle(library@.cells, views(references@), fuel as nat),
    decreases fuel, 1nat,
{
    let mut index: usize = 0;
    while index < references.len()
        invariant
            index <= references.len(),
            forall|i: int|
                0 <= i < index ==> settles(
                    library@.cells,
                    #[trigger] views(references@)[i],
                    fuel as nat,
                ),
        decreases references.len() - index,
    {
        assert(views(references@)[index as int] == references@[index as int]@);
        if !settles_to(&references[index], library, fuel) {
            return false;
        }
        index = index + 1;
    }
    true
}

impl Reference {
    /// Whether resolving the reference `depth` levels deep in `library` leaves no
    /// reference behind. References that run in a circle never settle, however deep.
    pub fn settles_within(&self, library: &Library, depth: usize) -> (settled: bool)
        ensures
            settled == settles(library@.cells, self@, depth as nat),
            settled ==> concrete(flattened(library@.cells, self@, Seq::empty(), depth as nat)),
    {
        proof {
            if settles(library@.cells, self@, depth as nat) {
                lemma_settled_flat(library@.cells, self@, Seq::empty(), depth as nat, depth as nat);
            }
        }
        settles_to(self, library, depth)
    }
}

impl Cell {
    /// Whether resolving the references of the cell `depth` levels deep in `library`
    /// leaves no reference behind.
    pub fn settles_within(&self, library: &Library, depth: usize) -> (settled: bool)
        ensures
            settled == all_settle(library@.cells, self@.references, depth as nat),
            settled ==> concrete(cell_elements(library@.cells, self@, Seq::empty(), depth as nat)),
    {
        proof {
            if all_settle(library@.cells, self@.references, depth as nat) {
                let filter = Seq::<(i32, i32)>::empty();
                lemma_settled_references(
                    library@.cells,
                    self@.references,
                    filter,
                    depth as nat,
                    depth as nat,
                );
                lemma_kept(as_placed(polygon_elements(self@.polygons)), filter);
                lemma_kept(as_placed(path_elements(self@.paths)), filter);
                lemma_kept(as_placed(text_elements(self@.texts)), filter);
            }
        }
        all_settle_to(&self.references, library, depth)
    }
}

} // verus!
