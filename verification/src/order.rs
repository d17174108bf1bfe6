use vstd::prelude::*;
use vstd::set_lib::{lemma_int_range, lemma_len_subset, set_int_range};
use crate::cell::CellView;
use crate::element::{Element, ElementView, Instance, InstanceView, Reference, ReferenceView};
use crate::library::{has_name, lemma_place_of, place_of, Library};
use crate::traits::views;

verus! {

/// The name of the cell that a reference places, or in which the chain of references
/// that it wraps ends. A reference to a polygon, a path or a text names no cell.
pub open spec fn named_cell(reference: ReferenceView) -> Option<Seq<char>>
    decreases reference,
{
    match reference.instance {
        InstanceView::Cell(name) => Some(name),
        InstanceView::Element(element) => match *element {
            ElementView::Reference(inner) => named_cell(inner),
            _ => None,
        },
    }
}

/// The names of the cells that the references name, in the order of the references.
pub open spec fn names_of(references: Seq<ReferenceView>) -> Seq<Seq<char>>
    decreases references.len(),
{
    if references.len() == 0 {
        Seq::empty()
    } else {
        match named_cell(references.last()) {
            Some(name) => names_of(references.drop_last()).push(name),
            None => names_of(references.drop_last()),
        }
    }
}

/// The name of the cell that a reference places, or in which the chain of references
/// that it wraps ends.
pub fn cell_named(reference: &Reference) -> (found: Option<&String>)
    ensures
        match found {
            Some(name) => named_cell(reference@) == Some(name@),
            None => named_cell(reference@).is_none(),
        },
    decreases reference,
{
    match &reference.instance {
        Instance::Cell(name) => Some(name),
        Instance::Element(element) => {
            assert(reference@.instance == InstanceView::Element(Box::new(element@)));
            match &**element {
                Element::Reference(inner) => cell_named(inner),
                _ => None,
            }
        },
    }
}

/// The queue of cells to write, after the cells of the given names have joined it: each
/// name in turn adds the place of its cell at the end, unless the library has no cell of
/// that name or the queue holds the place already.
pub open spec fn enqueued(cells: Seq<CellView>, queue: Seq<int>, names: Seq<Seq<char>>) -> Seq<int>
    decreases names.len(),
{
    if names.len() == 0 {
        queue
    } else {
        let before = enqueued(cells, queue, names.drop_last());
        let place = place_of(cells, names.last());
        if place >= 0 && !before.contains(place) {
            before.push(place)
        } else {
            before
        }
    }
}

/// The queue after every cell in it from place `head` on has been served: serving a
/// cell makes the cells that its references name join the queue.
pub open spec fn drained(cells: Seq<CellView>, queue: Seq<int>, head: int) -> Seq<int>
    decreases cells.len() - head,
{
    if head < 0 || head >= queue.len() || head >= cells.len() {
        queue
    } else {
        let current = queue[head];
        let names = if 0 <= current < cells.len() {
            names_of(cells[current].references)
        } else {
            Seq::empty()
        };
        drained(cells, enqueued(cells, queue, names), head + 1)
    }
}

/// The queue after the cells of the library from place `top` on have been looked at in
/// turn: one that the queue does not hold yet joins it and is served, with all that
/// follows from it, before the next is looked at.
pub open spec fn visited(cells: Seq<CellView>, queue: Seq<int>, top: int) -> Seq<int>
    decreases cells.len() - top,
{
    if top < 0 || top >= cells.len() {
        queue
    } else if queue.contains(top) {
        visited(cells, queue, top + 1)
    } else {
        visited(cells, drained(cells, queue.push(top), queue.len() as int), top + 1)
    }
}

/// The order in which the cells of a library are written, as places in the library: the
/// first cell, then the cells that it refers to, then those that they refer to, and so
/// on; then the next cell of the library that has not been written, in the same way.
pub open spec fn write_order(cells: Seq<CellView>) -> Seq<int> {
    visited(cells, Seq::empty(), 0)
}

/// Whether the queue holds places of the library only, and none twice.
pub open spec fn sound(queue: Seq<int>, count: int) -> bool {
    &&& forall|k: int| 0 <= k < queue.len() ==> 0 <= #[trigger] queue[k] < count
    &&& queue.no_duplicates()
}

/// A list of places that holds none twice is no longer than there are places.
pub proof fn lemma_sound_short(queue: Seq<int>, count: int)
    requires
        sound(queue, count),
        0 <= count,
    ensures
        queue.len() <= count,
{
    queue.unique_seq_to_set();
    lemma_int_range(0, count);
    assert forall|place: int| queue.to_set().contains(place) implies set_int_range(
        0,
        count,
    ).contains(place) by {
        let k = choose|k: int| 0 <= k < queue.len() && queue[k] == place;
        assert(0 <= queue[k] < count);
    }
    lemma_len_subset(queue.to_set(), set_int_range(0, count));
}

/// Joining keeps the queue sound, and what it held.
pub proof fn lemma_enqueued(cells: Seq<CellView>, queue: Seq<int>, names: Seq<Seq<char>>)
    requires
        sound(queue, cells.len() as int),
    ensures
        sound(enqueued(cells, queue, names), cells.len() as int),
        queue.len() <= enqueued(cells, queue, names).len(),
        forall|k: int| 0 <= k < queue.len() ==> enqueued(cells, queue, names)[k] == queue[k],
    decreases names.len(),
{
    if names.len() > 0 {
        lemma_enqueued(cells, queue, names.drop_last());
        lemma_place_of(cells, names.last());
        let before = enqueued(cells, queue, names.drop_last());
        let place = place_of(cells, names.last());
        if place >= 0 && !before.contains(place) {
            let after = before.push(place);
            assert forall|i: int, j: int| 0 <= i < after.len() && 0 <= j < after.len() && i
                != j implies after[i] != after[j] by {
                if i < before.len() && j < before.len() {
                } else if i < before.len() {
                    assert(before.contains(before[i]));
                } else {
                    assert(before.contains(before[j]));
                }
            }
        }
    }
}

/// Serving keeps the queue sound, and what it held.
pub proof fn lemma_drained(cells: Seq<CellView>, queue: Seq<int>, head: int)
    requires
        sound(queue, cells.len() as int),
    ensures
        sound(drained(cells, queue, head), cells.len() as int),
        queue.len() <= drained(cells, queue, head).len(),
        forall|k: int| 0 <= k < queue.len() ==> drained(cells, queue, head)[k] == queue[k],
    decreases cells.len() - head,
{
    if !(head < 0 || head >= queue.len() || head >= cells.len()) {
        let current = queue[head];
        let names = if 0 <= current < cells.len() {
            names_of(cells[current].references)
        } else {
            Seq::empty()
        };
        lemma_enqueued(cells, queue, names);
        lemma_drained(cells, enqueued(cells, queue, names), head + 1);
    }
}

/// Looking at the cells keeps the queue sound and what it held, and leaves every cell
/// from `top` on in it.
pub proof fn lemma_visited(cells: Seq<CellView>, queue: Seq<int>, top: int)
    requires
        sound(queue, cells.len() as int),
        0 <= top,
    ensures
        sound(visited(cells, queue, top), cells.len() as int),
        forall|place: int| queue.contains(place) ==> visited(cells, queue, top).contains(place),
        forall|place: int| top <= place < cells.len() ==> visited(cells, queue, top).contains(place),
    decreases cells.len() - top,
{
    if top < cells.len() {
        if queue.contains(top) {
            lemma_visited(cells, queue, top + 1);
        } else {
            let joined = queue.push(top);
            assert forall|i: int, j: int| 0 <= i < joined.len() && 0 <= j < joined.len() && i
                != j implies joined[i] != joined[j] by {
                if i < queue.len() && j < queue.len() {
                } else if i < queue.len() {
                    assert(queue.contains(queue[i]));
                } else {
                    assert(queue.contains(queue[j]));
                }
            }
            lemma_drained(cells, joined, queue.len() as int);
            let served = drained(cells, joined, queue.len() as int);
            lemma_visited(cells, served, top + 1);
            let end = visited(cells, served, top + 1);
            assert(served[queue.len() as int] == top);
            assert(served.contains(top));
            assert forall|place: int| queue.contains(place) implies end.contains(place) by {
                let k = choose|k: int| 0 <= k < queue.len() && queue[k] == place;
                assert(joined[k] == place);
                assert(served[k] == joined[k]);
                assert(served.contains(place));
            }
        }
    }
}

/// Every cell of a library is written exactly once: the order of writing holds every
/// place of the library, and none twice, however many references name a cell and from
/// however many cells.
pub proof fn lemma_write_order_once(cells: Seq<CellView>)
    ensures
        write_order(cells).len() == cells.len(),
        write_order(cells).no_duplicates(),
        forall|k: int| 0 <= k < cells.len() ==> 0 <= #[trigger] write_order(cells)[k] < cells.len(),
        forall|place: int| 0 <= place < cells.len() ==> write_order(cells).contains(place),
{
    let order = write_order(cells);
    let count = cells.len() as int;
    lemma_visited(cells, Seq::empty(), 0);
    lemma_sound_short(order, count);
    order.unique_seq_to_set();
    lemma_int_range(0, count);
    assert forall|place: int| set_int_range(0, count).contains(place) implies order.to_set().contains(
        place,
    ) by {
        assert(order.contains(place));
    }
    lemma_len_subset(set_int_range(0, count), order.to_set());
}

/// The places in a list, as numbers.
pub open spec fn places(list: Seq<usize>) -> Seq<int> {
    Seq::new(list.len(), |i: int| list[i] as int)
}

/// Serves the queue of cells to write from place `head` on: each cell served makes the
/// cells that its references name join the queue, unless they are in it. `written`
/// says of every place whether the queue holds it.
fn serve(library: &Library, written: &mut Vec<bool>, order: &mut Vec<usize>, from: usize)
    requires
        old(written)@.len() == library@.cells.len(),
        from <= old(order)@.len(),
        sound(places(old(order)@), library@.cells.len() as int),
        forall|i: int|
            0 <= i < library@.cells.len() ==> (old(written)@[i] <==> places(old(order)@).contains(
                i,
            )),
    ensures
        final(written)@.len() == library@.cells.len(),
        sound(places(final(order)@), library@.cells.len() as int),
        forall|i: int|
            0 <= i < library@.cells.len() ==> (final(written)@[i] <==> places(
                final(order)@,
            ).contains(i)),
        places(final(order)@) == drained(library@.cells, places(old(order)@), from as int),
{
    let ghost cells = library@.cells;
    let count = library.cells.len();
    let ghost joined = places(order@);
    let ghost first = from as int;
    let mut head: usize = from;
    while head < order.len()
        invariant
            cells == library@.cells,
            count == cells.len(),
            count == library.cells.len(),
            written@.len() == count,
            head <= order.len(),
            sound(places(order@), count as int),
            forall|i: int|
                0 <= i < count ==> (written@[i] <==> places(order@).contains(i)),
            drained(cells, places(order@), head as int) == drained(cells, joined, first),
        decreases count - head,
    {
        proof {
            lemma_sound_short(places(order@), count as int);
            assert(places(order@)[head as int] == order@[head as int]);
        }
        let current = order[head];
        let cell = &library.cells[current];
        let ghost queue = places(order@);
        let ghost references = views(cell.references@);
        proof {
            assert(cells[current as int] == library.cells@[current as int]@);
            assert(references == cells[current as int].references);
            assert(references.take(0) =~= Seq::<ReferenceView>::empty());
        }
        let mut index: usize = 0;
        while index < cell.references.len()
            invariant
                cells == library@.cells,
                count == cells.len(),
                count == library.cells.len(),
                written@.len() == count,
                index <= cell.references.len(),
                references == views(cell.references@),
                head < order.len(),
                sound(places(order@), count as int),
                forall|i: int|
                    0 <= i < count ==> (written@[i] <==> places(order@).contains(i)),
                places(order@) == enqueued(
                    cells,
                    queue,
                    names_of(references.take(index as int)),
                ),
            decreases cell.references.len() - index,
        {
            let ghost held = places(order@);
            proof {
                let next = references.take(index + 1);
                assert(next.drop_last() =~= references.take(index as int));
                assert(next.last() == cell.references@[index as int]@);
            }
            match cell_named(&cell.references[index]) {
                Some(name) => {
                    proof {
                        let names = names_of(references.take(index + 1));
                        assert(names.drop_last() =~= names_of(
                            references.take(index as int),
                        ));
                        assert(names.last() == name@);
                    }
                    match library.index_of(name) {
                        Some(place) => {
                            if !written[place] {
                                written.set(place, true);
                                order.push(place);
                                proof {
                                    let after = places(order@);
                                    assert(after =~= held.push(place as int));
                                    assert forall|i: int, j: int|
                                        0 <= i < after.len() && 0 <= j < after.len() && i
                                            != j implies after[i] != after[j] by {
                                        if i < held.len() && j < held.len() {
                                        } else if i < held.len() {
                                            assert(held.contains(held[i]));
                                        } else {
                                            assert(held.contains(held[j]));
                                        }
                                    }
                                    assert forall|i: int| 0 <= i < count implies (
                                    written@[i] <==> after.contains(i)) by {
                                        if i == place {
                                            assert(after[held.len() as int] == place);
                                        } else if held.contains(i) {
                                            let k = choose|k: int|
                                                0 <= k < held.len() && held[k] == i;
                                            assert(after[k] == i);
                                        } else if after.contains(i) {
                                            let k = choose|k: int|
                                                0 <= k < after.len() && after[k] == i;
                                            assert(held[k] == i);
                                        }
                                    }
                                }
                            }
                        },
                        None => {},
                    }
                },
                None => {},
            }
            index = index + 1;
        }
        proof {
            assert(references.take(cell.references.len() as int) =~= references);
            lemma_sound_short(places(order@), count as int);
        }
        head = head + 1;
    }
}

/// The places of the cell at `top` and of the cells that are reached from it through
/// references, in the order in which they are written: the cell itself, then the cells
/// that its references name, then those that theirs name, and so on, each once. A place
/// beyond the library reaches nothing.
pub open spec fn reached_from(cells: Seq<CellView>, top: int) -> Seq<int> {
    if 0 <= top < cells.len() {
        drained(cells, seq![top], 0)
    } else {
        Seq::empty()
    }
}

/// What is reached from a cell holds places of the library only, none twice, and the
/// cell itself first.
pub proof fn lemma_reached_once(cells: Seq<CellView>, top: int)
    requires
        0 <= top < cells.len(),
    ensures
        sound(reached_from(cells, top), cells.len() as int),
        reached_from(cells, top).len() >= 1,
        reached_from(cells, top)[0] == top,
        reached_from(cells, top).len() <= cells.len(),
{
    let start = seq![top];
    assert(sound(start, cells.len() as int));
    lemma_drained(cells, start, 0);
    lemma_sound_short(reached_from(cells, top), cells.len() as int);
}

/// The places of the cell at `top` and of the cells that are reached from it, in the
/// order in which they are written.
pub fn cells_from(library: &Library, top: usize) -> (order: Vec<usize>)
    ensures
        places(order@) == reached_from(library@.cells, top as int),
        forall|k: int| 0 <= k < order@.len() ==> (#[trigger] order@[k]) < library@.cells.len(),
{
    let count = library.cells.len();
    let mut order: Vec<usize> = Vec::new();
    if top >= count {
        assert(places(order@) =~= Seq::<int>::empty());
        return order;
    }
    let mut written: Vec<bool> = Vec::new();
    while written.len() < count
        invariant
            written@.len() <= count,
            forall|i: int| 0 <= i < written@.len() ==> !written@[i],
        decreases count - written.len(),
    {
        written.push(false);
    }
    written.set(top, true);
    order.push(top);
    proof {
        let start = places(order@);
        assert(start =~= seq![top as int]);
        assert forall|i: int| 0 <= i < count implies (written@[i] <==> start.contains(i)) by {
            if i == top {
                assert(start[0] == top);
            }
        }
    }
    serve(library, &mut written, &mut order, 0);
    proof {
        assert forall|k: int| 0 <= k < order@.len() implies (#[trigger] order@[k])
            < library@.cells.len() by {
            assert(places(order@)[k] == order@[k]);
        }
    }
    order
}

/// The order in which the cells of the library are written, as places in the library.
pub fn cell_order(library: &Library) -> (order: Vec<usize>)
    ensures
        places(order@) == write_order(library@.cells),
        order@.len() == library@.cells.len(),
        forall|k: int| 0 <= k < order@.len() ==> (#[trigger] order@[k]) < library@.cells.len(),
{
    let ghost cells = library@.cells;
    let count = library.cells.len();
    let mut written: Vec<bool> = Vec::new();
    while written.len() < count
        invariant
            written@.len() <= count,
            forall|i: int| 0 <= i < written@.len() ==> !written@[i],
        decreases count - written.len(),
    {
        written.push(false);
    }
    let mut order: Vec<usize> = Vec::new();
    let mut top: usize = 0;
    proof {
        assert(places(order@) =~= Seq::<int>::empty());
    }
    while top < count
        invariant
            cells == library@.cells,
            count == cells.len(),
            count == library.cells.len(),
            written@.len() == count,
            top <= count,
            sound(places(order@), count as int),
            forall|i: int| 0 <= i < count ==> (written@[i] <==> places(order@).contains(i)),
            visited(cells, places(order@), top as int) == write_order(cells),
        decreases count - top,
    {
        if !written[top] {
            let ghost before = places(order@);
            written.set(top, true);
            order.push(top);
            let head: usize = order.len() - 1;
            proof {
                assert(places(order@) =~= before.push(top as int));
                let joined = places(order@);
                assert forall|i: int, j: int| 0 <= i < joined.len() && 0 <= j < joined.len() && i
                    != j implies joined[i] != joined[j] by {
                    if i < before.len() && j < before.len() {
                    } else if i < before.len() {
                        assert(before.contains(before[i]));
                    } else {
                        assert(before.contains(before[j]));
                    }
                }
                assert forall|i: int| 0 <= i < count implies (written@[i] <==> joined.contains(
                    i,
                )) by {
                    if i == top {
                        assert(joined[before.len() as int] == top);
                    } else if before.contains(i) {
                        let k = choose|k: int| 0 <= k < before.len() && before[k] == i;
                        assert(joined[k] == i);
                    } else if joined.contains(i) {
                        let k = choose|k: int| 0 <= k < joined.len() && joined[k] == i;
                        assert(before[k] == i);
                    }
                }
            }
            serve(library, &mut written, &mut order, head);
            proof {
                lemma_sound_short(places(order@), count as int);
            }
        }
        top = top + 1;
    }
    proof {
        lemma_write_order_once(cells);
        assert(places(order@).len() == order@.len());
        assert forall|k: int| 0 <= k < order@.len() implies (#[trigger] order@[k])
            < library@.cells.len() by {
            assert(places(order@)[k] == order@[k]);
        }
    }
    order
}


/// The names among `names` of which the library holds no cell, in order.
pub open spec fn missing_among(cells: Seq<CellView>, names: Seq<Seq<char>>) -> Seq<Seq<char>>
    decreases names.len(),
{
    if names.len() == 0 {
        Seq::empty()
    } else if has_name(cells, names.last()) {
        missing_among(cells, names.drop_last())
    } else {
        missing_among(cells, names.drop_last()).push(names.last())
    }
}

/// The names that the references of the first `count` cells give to cells that the
/// library does not hold: cell after cell, and in each cell reference after reference.
/// A name is listed as often as it is used.
pub open spec fn missing_names(cells: Seq<CellView>, count: int) -> Seq<Seq<char>>
    decreases count,
{
    if count <= 0 {
        Seq::empty()
    } else {
        missing_names(cells, count - 1) + missing_among(
            cells,
            names_of(cells[count - 1].references),
        )
    }
}

/// The characters of each string of a list.
pub open spec fn texts(list: Seq<String>) -> Seq<Seq<char>> {
    Seq::new(list.len(), |i: int| list[i]@)
}

impl Library {
    /// The names that references give to cells that the library does not hold. A
    /// library read from a stream keeps such references as they are; this is where they
    /// can be found.
    pub fn missing_cells(&self) -> (names: Vec<String>)
        ensures
            texts(names@) == missing_names(self@.cells, self@.cells.len() as int),
    {
        let ghost cells = self@.cells;
        let mut names: Vec<String> = Vec::new();
        let mut place: usize = 0;
        proof {
            assert(texts(names@) =~= Seq::<Seq<char>>::empty());
        }
        while place < self.cells.len()
            invariant
                place <= self.cells.len(),
                cells == self@.cells,
                texts(names@) == missing_names(cells, place as int),
            decreases self.cells.len() - place,
        {
            let cell = &self.cells[place];
            let ghost references = views(cell.references@);
            let ghost before = texts(names@);
            proof {
                assert(cells[place as int] == self.cells@[place as int]@);
                assert(references.take(0) =~= Seq::<ReferenceView>::empty());
                assert(before + Seq::<Seq<char>>::empty() =~= before);
            }
            let mut index: usize = 0;
            while index < cell.references.len()
                invariant
                    index <= cell.references.len(),
                    cells == self@.cells,
                    references == views(cell.references@),
                    texts(names@) == before + missing_among(
                        cells,
                        names_of(references.take(index as int)),
                    ),
                decreases cell.references.len() - index,
            {
                proof {
                    let next = references.take(index + 1);
                    assert(next.drop_last() =~= references.take(index as int));
                    assert(next.last() == cell.references@[index as int]@);
                }
                match cell_named(&cell.references[index]) {
                    Some(name) => {
                        proof {
                            let listed = names_of(references.take(index + 1));
                            assert(listed.drop_last() =~= names_of(references.take(index as int)));
                            assert(listed.last() == name@);
                        }
                        if self.index_of(name).is_none() {
                            let ghost held = texts(names@);
                            let copy = name.clone();
                            names.push(copy);
                            proof {
                                assert(texts(names@) =~= held.push(name@));
                                let found = missing_among(
                                    cells,
                                    names_of(references.take(index as int)),
                                );
                                assert((before + found).push(name@) =~= before + found.push(
                                    name@,
                                ));
                            }
                        }
                    },
                    None => {},
                }
                index = index + 1;
            }
            proof {
                assert(references.take(cell.references.len() as int) =~= references);
            }
            place = place + 1;
        }
        names
    }
}

} // verus!
