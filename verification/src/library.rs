use vstd::prelude::*;
use crate::cell::{Cell, CellView};
use crate::error::LibraryError;
use crate::traits::{copy_list, holds, list_contains, views};

verus! {

/// A named collection of cells, the root of what a stream holds. No two of its cells
/// have the same name: references and the stream know a cell by its name alone. The cells
/// keep the order in which they came.
#[derive(Debug)]
pub struct Library {
    pub name: String,
    pub cells: Vec<Cell>,
}

/// What a library is: its name and its cells in order.
pub struct LibraryView {
    pub name: Seq<char>,
    pub cells: Seq<CellView>,
}

impl View for Library {
    type V = LibraryView;

    open spec fn view(&self) -> LibraryView {
        LibraryView { name: self.name@, cells: views(self.cells@) }
    }
}

/// Whether no two cells of the list have the same name.
pub open spec fn distinct_names(cells: Seq<CellView>) -> bool {
    forall|i: int, j: int|
        0 <= i < j < cells.len() ==> (#[trigger] cells[i]).name != (#[trigger] cells[j]).name
}

/// Whether some cell of the list has the given name.
pub open spec fn has_name(cells: Seq<CellView>, name: Seq<char>) -> bool {
    exists|i: int| 0 <= i < cells.len() && (#[trigger] cells[i]).name == name
}

/// Whether the cell at `index` is the first of the list with the given name.
pub open spec fn first_named(cells: Seq<CellView>, name: Seq<char>, index: int) -> bool {
    &&& 0 <= index < cells.len()
    &&& cells[index].name == name
    &&& forall|j: int| 0 <= j < index ==> (#[trigger] cells[j]).name != name
}

/// The place of the first cell of the list with the given name, or -1 where there is
/// none.
pub open spec fn place_of(cells: Seq<CellView>, name: Seq<char>) -> int {
    if has_name(cells, name) {
        choose|index: int| first_named(cells, name, index)
    } else {
        -1
    }
}

/// The place of a name that the list holds is that of the first cell with the name.
pub proof fn lemma_place_of(cells: Seq<CellView>, name: Seq<char>)
    ensures
        has_name(cells, name) ==> first_named(cells, name, place_of(cells, name)),
        !has_name(cells, name) ==> place_of(cells, name) == -1,
    decreases cells.len(),
{
    if has_name(cells, name) {
        let witness = choose|i: int| 0 <= i < cells.len() && (#[trigger] cells[i]).name == name;
        lemma_first_exists(cells, name, witness);
    }
}

/// Below a cell with the given name there is a first one.
proof fn lemma_first_exists(cells: Seq<CellView>, name: Seq<char>, bound: int)
    requires
        0 <= bound < cells.len(),
        cells[bound].name == name,
    ensures
        exists|index: int| first_named(cells, name, index),
    decreases bound,
{
    if exists|j: int| 0 <= j < bound && (#[trigger] cells[j]).name == name {
        let lower = choose|j: int| 0 <= j < bound && (#[trigger] cells[j]).name == name;
        lemma_first_exists(cells, name, lower);
    } else {
        assert(first_named(cells, name, bound));
    }
}

/// The list with `cell` put in: in the place of the cell of its name where there is one,
/// at the end where there is none.
pub open spec fn placed(cells: Seq<CellView>, cell: CellView) -> Seq<CellView> {
    if has_name(cells, cell.name) {
        cells.update(place_of(cells, cell.name), cell)
    } else {
        cells.push(cell)
    }
}

/// The list without the first cell of the given name.
pub open spec fn dropped(cells: Seq<CellView>, name: Seq<char>) -> Seq<CellView> {
    if has_name(cells, name) {
        cells.remove(place_of(cells, name))
    } else {
        cells
    }
}

/// The list without the cells that bear the name of one of `named`.
pub open spec fn dropped_all(cells: Seq<CellView>, named: Seq<CellView>) -> Seq<CellView>
    decreases named.len(),
{
    if named.len() == 0 {
        cells
    } else {
        dropped(dropped_all(cells, named.drop_last()), named.last().name)
    }
}

/// What becomes of a list of cells when `arrivals` are put in one after the other: the
/// list in the end, and the place among the arrivals of the first one that was refused,
/// or -1 where none was. A cell is refused where its name is taken and `replace` is not
/// set; with it the putting in ends, and the cells before it stay in.
pub open spec fn arrived(cells: Seq<CellView>, arrivals: Seq<CellView>, replace: bool) -> (
    Seq<CellView>,
    int,
)
    decreases arrivals.len(),
{
    if arrivals.len() == 0 {
        (cells, -1)
    } else {
        let (before, refused) = arrived(cells, arrivals.drop_last(), replace);
        if refused >= 0 {
            (before, refused)
        } else if !replace && has_name(before, arrivals.last().name) {
            (before, arrivals.len() - 1)
        } else {
            (placed(before, arrivals.last()), -1)
        }
    }
}

/// Putting a cell into a list of distinct names leaves the names distinct.
pub proof fn lemma_placed_distinct(cells: Seq<CellView>, cell: CellView)
    requires
        distinct_names(cells),
    ensures
        distinct_names(placed(cells, cell)),
{
    lemma_place_of(cells, cell.name);
    let after = placed(cells, cell);
    if has_name(cells, cell.name) {
        let place = place_of(cells, cell.name);
        assert forall|i: int, j: int| 0 <= i < j < after.len() implies (#[trigger] after[i]).name
            != (#[trigger] after[j]).name by {
            assert(after[i].name == cells[i].name);
            assert(after[j].name == cells[j].name);
        }
    } else {
        assert forall|i: int, j: int| 0 <= i < j < after.len() implies (#[trigger] after[i]).name
            != (#[trigger] after[j]).name by {
            if j < cells.len() {
                assert(after[i] == cells[i] && after[j] == cells[j]);
            } else {
                assert(after[i] == cells[i]);
            }
        }
    }
}

/// Dropping a name from a list of distinct names leaves the names distinct, and the
/// name gone.
pub proof fn lemma_dropped_distinct(cells: Seq<CellView>, name: Seq<char>)
    requires
        distinct_names(cells),
    ensures
        distinct_names(dropped(cells, name)),
        !has_name(dropped(cells, name), name),
{
    lemma_place_of(cells, name);
    let after = dropped(cells, name);
    if has_name(cells, name) {
        let place = place_of(cells, name);
        assert forall|i: int| 0 <= i < after.len() implies #[trigger] after[i] == cells[if i
            < place {
            i
        } else {
            i + 1
        }] by {}
        assert forall|i: int, j: int| 0 <= i < j < after.len() implies (#[trigger] after[i]).name
            != (#[trigger] after[j]).name by {
            let a = if i < place { i } else { i + 1 };
            let b = if j < place { j } else { j + 1 };
            assert(after[i] == cells[a] && after[j] == cells[b]);
        }
        assert forall|i: int| 0 <= i < after.len() implies (#[trigger] after[i]).name != name by {
            let a = if i < place { i } else { i + 1 };
            assert(after[i] == cells[a]);
            if a < place {
            } else {
                assert(cells[place].name != cells[a].name);
            }
        }
    }
}

impl LibraryView {
    /// Whether the library is as it must be: no two cells with the same name.
    pub open spec fn well_formed(self) -> bool {
        distinct_names(self.cells)
    }

    /// Whether the two libraries agree: the same name, as many cells, and for every
    /// cell of the one a cell of its name in the other that agrees with it within
    /// `epsilon`. The order of the cells is not looked at.
    pub open spec fn equal_within(self, other: LibraryView, epsilon: u32) -> bool {
        &&& self.name == other.name
        &&& self.cells.len() == other.cells.len()
        &&& forall|i: int|
            0 <= i < self.cells.len() ==> has_name(other.cells, (#[trigger] self.cells[i]).name)
                && self.cells[i].equal_within(
                other.cells[place_of(other.cells, self.cells[i].name)],
                epsilon,
            )
    }
}

impl Library {
    /// An empty library of the given name.
    pub fn new(name: String) -> (library: Library)
        ensures
            library@ == (LibraryView { name: name@, cells: Seq::empty() }),
            library@.well_formed(),
    {
        let library = Library { name, cells: Vec::new() };
        assert(library@.cells =~= Seq::empty());
        library
    }

    /// The place of the cell of the given name, if the library holds one.
    pub fn index_of(&self, name: &String) -> (place: Option<usize>)
        ensures
            match place {
                Some(index) => first_named(self@.cells, name@, index as int),
                None => !has_name(self@.cells, name@),
            },
            place_of(self@.cells, name@) == match place {
                Some(index) => index as int,
                None => -1,
            },
    {
        let mut index: usize = 0;
        while index < self.cells.len()
            invariant
                index <= self.cells.len(),
                forall|j: int| 0 <= j < index ==> (#[trigger] self@.cells[j]).name != name@,
            decreases self.cells.len() - index,
        {
            assert(self@.cells[index as int] == self.cells@[index as int]@);
            if self.cells[index].name == *name {
                proof {
                    lemma_place_of(self@.cells, name@);
                    let chosen = place_of(self@.cells, name@);
                    assert(first_named(self@.cells, name@, index as int));
                    assert(first_named(self@.cells, name@, chosen));
                    if chosen < index {
                        assert(self@.cells[chosen].name != name@);
                    } else if index < chosen {
                        assert(self@.cells[index as int].name != name@);
                    }
                }
                return Some(index);
            }
            index = index + 1;
        }
        None
    }

    /// The cell of the given name, if the library holds one.
    pub fn get(&self, name: &String) -> (cell: Option<&Cell>)
        ensures
            cell.is_some() <==> has_name(self@.cells, name@),
            cell matches Some(found) ==> found@ == self@.cells[place_of(self@.cells, name@)],
    {
        match self.index_of(name) {
            Some(index) => {
                assert(self@.cells[index as int] == self.cells@[index as int]@);
                Some(&self.cells[index])
            },
            None => None,
        }
    }

    /// Puts one cell into the library: in the place of the cell of its name where there
    /// is one, at the end where there is none.
    pub fn insert(&mut self, cell: Cell)
        requires
            old(self)@.well_formed(),
        ensures
            final(self)@.name == old(self)@.name,
            final(self)@.cells == placed(old(self)@.cells, cell@),
            final(self)@.well_formed(),
    {
        proof {
            lemma_placed_distinct(self@.cells, cell@);
        }
        match self.index_of(&cell.name) {
            Some(index) => {
                let ghost before = self.cells@;
                self.cells[index] = cell;
                assert(views(self.cells@) =~= views(before).update(index as int, cell@));
            },
            None => {
                let ghost before = self.cells@;
                self.cells.push(cell);
                assert(views(self.cells@) =~= views(before).push(cell@));
            },
        }
    }

    /// Puts the cells into the library, one after the other. A cell whose name the
    /// library holds already takes the place of that cell if `replace_pre_existing` is
    /// set; if it is not, the cell is refused with `DuplicateName`, the cells before it
    /// stay in, and those after it are not looked at.
    pub fn add(&mut self, cells: Vec<Cell>, replace_pre_existing: bool) -> (result: Result<
        (),
        LibraryError,
    >)
        requires
            old(self)@.well_formed(),
        ensures
            final(self)@.name == old(self)@.name,
            final(self)@.cells == arrived(
                old(self)@.cells,
                views(cells@),
                replace_pre_existing,
            ).0,
            final(self)@.well_formed(),
            match result {
                Ok(_) => arrived(old(self)@.cells, views(cells@), replace_pre_existing).1 == -1,
                Err(LibraryError::DuplicateName { position }) => arrived(
                    old(self)@.cells,
                    views(cells@),
                    replace_pre_existing,
                ).1 == position,
            },
    {
        let mut index: usize = 0;
        proof {
            assert(views(cells@).take(0) =~= Seq::<CellView>::empty());
        }
        while index < cells.len()
            invariant
                index <= cells.len(),
                self@.name == old(self)@.name,
                self@.well_formed(),
                arrived(old(self)@.cells, views(cells@).take(index as int), replace_pre_existing)
                    == (self@.cells, -1int),
            decreases cells.len() - index,
        {
            proof {
                let after = views(cells@).take(index + 1);
                assert(after.drop_last() =~= views(cells@).take(index as int));
                assert(after.last() == cells@[index as int]@);
            }
            if !replace_pre_existing {
                match self.index_of(&cells[index].name) {
                    Some(_) => {
                        proof {
                            lemma_arrived_stops(
                                old(self)@.cells,
                                views(cells@),
                                replace_pre_existing,
                                index + 1,
                            );
                        }
                        return Err(LibraryError::DuplicateName { position: index });
                    },
                    None => {},
                }
            }
            self.insert(cells[index].copy());
            index = index + 1;
        }
        proof {
            assert(views(cells@).take(cells.len() as int) =~= views(cells@));
        }
        Ok(())
    }

    /// Removes the cells that bear the name of one of `cells`.
    pub fn remove(&mut self, cells: &Vec<Cell>)
        requires
            old(self)@.well_formed(),
        ensures
            final(self)@.name == old(self)@.name,
            final(self)@.cells == dropped_all(old(self)@.cells, views(cells@)),
            final(self)@.well_formed(),
    {
        let mut index: usize = 0;
        proof {
            assert(views(cells@).take(0) =~= Seq::<CellView>::empty());
        }
        while index < cells.len()
            invariant
                index <= cells.len(),
                self@.name == old(self)@.name,
                self@.well_formed(),
                self@.cells == dropped_all(old(self)@.cells, views(cells@).take(index as int)),
            decreases cells.len() - index,
        {
            proof {
                let after = views(cells@).take(index + 1);
                assert(after.drop_last() =~= views(cells@).take(index as int));
                assert(after.last() == cells@[index as int]@);
                lemma_dropped_distinct(self@.cells, cells@[index as int]@.name);
            }
            match self.index_of(&cells[index].name) {
                Some(place) => {
                    let ghost before = self.cells@;
                    self.cells.remove(place);
                    assert(views(self.cells@) =~= views(before).remove(place as int));
                },
                None => {},
            }
            index = index + 1;
        }
        proof {
            assert(views(cells@).take(cells.len() as int) =~= views(cells@));
        }
    }

    /// Whether the library holds a cell that agrees with `cell` within `epsilon`.
    pub fn contains(&self, cell: &Cell, epsilon: u32) -> (found: bool)
        ensures
            found == holds::<Cell>(self@.cells, cell@, epsilon),
    {
        list_contains(&self.cells, cell, epsilon)
    }

    /// Whether the two libraries agree within `epsilon`, whatever the order of their
    /// cells.
    pub fn is_equal(&self, other: &Library, epsilon: u32) -> (equal: bool)
        ensures
            equal == self@.equal_within(other@, epsilon),
    {
        if !(self.name == other.name) || self.cells.len() != other.cells.len() {
            return false;
        }
        let mut index: usize = 0;
        while index < self.cells.len()
            invariant
                index <= self.cells.len(),
                self@.name == other@.name,
                self@.cells.len() == other@.cells.len(),
                forall|i: int|
                    0 <= i < index ==> has_name(other@.cells, (#[trigger] self@.cells[i]).name)
                        && self@.cells[i].equal_within(
                        other@.cells[place_of(other@.cells, self@.cells[i].name)],
                        epsilon,
                    ),
            decreases self.cells.len() - index,
        {
            assert(self@.cells[index as int] == self.cells@[index as int]@);
            match other.index_of(&self.cells[index].name) {
                Some(place) => {
                    assert(other@.cells[place as int] == other.cells@[place as int]@);
                    if !self.cells[index].is_equal(&other.cells[place], epsilon) {
                        return false;
                    }
                },
                None => {
                    return false;
                },
            }
            index = index + 1;
        }
        true
    }

    /// A copy of the library, with copies of its cells.
    pub fn copy(&self) -> (library: Library)
        ensures
            library@ == self@,
    {
        Library { name: self.name.clone(), cells: copy_list(&self.cells) }
    }
}

/// Once a cell has been refused, the cells after it change nothing.
pub proof fn lemma_arrived_stops(
    cells: Seq<CellView>,
    arrivals: Seq<CellView>,
    replace: bool,
    count: int,
)
    requires
        0 <= count <= arrivals.len(),
        arrived(cells, arrivals.take(count), replace).1 >= 0,
    ensures
        arrived(cells, arrivals, replace) == arrived(cells, arrivals.take(count), replace),
    decreases arrivals.len() - count,
{
    if count == arrivals.len() {
        assert(arrivals.take(count) =~= arrivals);
    } else {
        let next = arrivals.take(count + 1);
        assert(next.drop_last() =~= arrivals.take(count));
        lemma_arrived_stops(cells, arrivals, replace, count + 1);
    }
}


/// A second cell under a name that the library holds is refused unless replacing is
/// asked for, and the library stays as it was; with replacing, the cell takes the place
/// of the one that bore its name, and nothing else changes.
pub proof fn lemma_duplicate_name(cells: Seq<CellView>, cell: CellView)
    requires
        has_name(cells, cell.name),
    ensures
        arrived(cells, seq![cell], false) == (cells, 0int),
        arrived(cells, seq![cell], true) == (cells.update(place_of(cells, cell.name), cell), -1int),
{
    let one = seq![cell];
    assert(one.drop_last() =~= Seq::<CellView>::empty());
    assert(one.last() == cell);
    assert(arrived(cells, one.drop_last(), false) == (cells, -1int));
    assert(arrived(cells, one.drop_last(), true) == (cells, -1int));
}

/// A cell under a name that the library does not hold is put at the end, whether or not
/// replacing is asked for.
pub proof fn lemma_new_name(cells: Seq<CellView>, cell: CellView, replace: bool)
    requires
        !has_name(cells, cell.name),
    ensures
        arrived(cells, seq![cell], replace) == (cells.push(cell), -1int),
{
    let one = seq![cell];
    assert(one.drop_last() =~= Seq::<CellView>::empty());
    assert(one.last() == cell);
    assert(arrived(cells, one.drop_last(), replace) == (cells, -1int));
}

} // verus!
