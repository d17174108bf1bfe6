use vstd::prelude::*;
use crate::cell::{Cell, CellView};
use crate::element::{Element, ElementView, Reference, ReferenceView};
use crate::path::{Path, PathView};
use crate::point::{offset_between, points_can_move, Point};
use crate::polygon::{Polygon, PolygonView};
use crate::text::{Text, TextView};

verus! {

/// What the lists of a cell ask of their items: that two of them can be compared within
/// a tolerance, and that one can be copied.
pub trait Shape: Sized + View {
    /// Whether the two agree within `epsilon`.
    spec fn agree(first: Self::V, second: Self::V, epsilon: u32) -> bool;

    /// Whether the two agree within `epsilon`.
    fn agrees_with(&self, other: &Self, epsilon: u32) -> (equal: bool)
        ensures
            equal == Self::agree(self@, other@, epsilon),
    ;

    /// A copy of the item.
    fn duplicate(&self) -> (copy: Self)
        ensures
            copy@ == self@,
    ;
}

impl Shape for Polygon {
    open spec fn agree(first: PolygonView, second: PolygonView, epsilon: u32) -> bool {
        first.equal_within(second, epsilon)
    }

    fn agrees_with(&self, other: &Polygon, epsilon: u32) -> (equal: bool) {
        self.is_equal(other, epsilon)
    }

    fn duplicate(&self) -> (copy: Polygon) {
        self.copy()
    }
}

impl Shape for Path {
    open spec fn agree(first: PathView, second: PathView, epsilon: u32) -> bool {
        first.equal_within(second, epsilon)
    }

    fn agrees_with(&self, other: &Path, epsilon: u32) -> (equal: bool) {
        self.is_equal(other, epsilon)
    }

    fn duplicate(&self) -> (copy: Path) {
        self.copy()
    }
}

impl Shape for Text {
    open spec fn agree(first: TextView, second: TextView, epsilon: u32) -> bool {
        first.equal_within(second, epsilon)
    }

    fn agrees_with(&self, other: &Text, epsilon: u32) -> (equal: bool) {
        self.is_equal(other, epsilon)
    }

    fn duplicate(&self) -> (copy: Text) {
        self.copy()
    }
}

impl Shape for Reference {
    open spec fn agree(first: ReferenceView, second: ReferenceView, epsilon: u32) -> bool {
        first.equal_within(second, epsilon)
    }

    fn agrees_with(&self, other: &Reference, epsilon: u32) -> (equal: bool) {
        self.is_equal(other, epsilon)
    }

    fn duplicate(&self) -> (copy: Reference) {
        self.copy()
    }
}

impl Shape for Element {
    open spec fn agree(first: ElementView, second: ElementView, epsilon: u32) -> bool {
        first.equal_within(second, epsilon)
    }

    fn agrees_with(&self, other: &Element, epsilon: u32) -> (equal: bool) {
        self.is_equal(other, epsilon)
    }

    fn duplicate(&self) -> (copy: Element) {
        self.copy()
    }
}

impl Shape for Cell {
    open spec fn agree(first: CellView, second: CellView, epsilon: u32) -> bool {
        first.equal_within(second, epsilon)
    }

    fn agrees_with(&self, other: &Cell, epsilon: u32) -> (equal: bool) {
        self.is_equal(other, epsilon)
    }

    fn duplicate(&self) -> (copy: Cell) {
        self.copy()
    }
}

/// What the items of a list are, in order.
pub open spec fn views<T: View>(list: Seq<T>) -> Seq<T::V> {
    Seq::new(list.len(), |i: int| list[i]@)
}

/// The views of a list to which one item was added are the views of the list with the
/// view of the item added.
pub proof fn lemma_views_push<T: View>(list: Seq<T>, item: T)
    ensures
        views(list.push(item)) == views(list).push(item@),
{
    assert(views(list.push(item)) =~= views(list).push(item@));
}

/// Whether some item of the list agrees with `target` within `epsilon`.
pub open spec fn holds<T: Shape>(list: Seq<T::V>, target: T::V, epsilon: u32) -> bool {
    exists|i: int| 0 <= i < list.len() && T::agree(#[trigger] list[i], target, epsilon)
}

/// The list without the items that agree with `target` within `epsilon`; the others
/// keep their order.
pub open spec fn without<T: Shape>(list: Seq<T::V>, target: T::V, epsilon: u32) -> Seq<T::V>
    decreases list.len(),
{
    if list.len() == 0 {
        list
    } else if T::agree(list.last(), target, epsilon) {
        without::<T>(list.drop_last(), target, epsilon)
    } else {
        without::<T>(list.drop_last(), target, epsilon).push(list.last())
    }
}

/// Whether the two lists have the same length and, place by place, items that agree
/// within `epsilon`.
pub open spec fn lists_agree<T: Shape>(first: Seq<T::V>, second: Seq<T::V>, epsilon: u32) -> bool {
    first.len() == second.len() && forall|i: int|
        0 <= i < first.len() ==> T::agree(#[trigger] first[i], second[i], epsilon)
}

/// A copy of the list.
pub fn copy_list<T: Shape>(list: &Vec<T>) -> (copy: Vec<T>)
    ensures
        views(copy@) == views(list@),
{
    let mut copy: Vec<T> = Vec::new();
    let mut index: usize = 0;
    while index < list.len()
        invariant
            index <= list.len(),
            copy@.len() == index,
            forall|i: int| 0 <= i < index ==> (#[trigger] copy@[i])@ == list@[i]@,
        decreases list.len() - index,
    {
        copy.push(list[index].duplicate());
        index = index + 1;
    }
    assert(views(copy@) =~= views(list@));
    copy
}

/// Whether some item of the list agrees with `target` within `epsilon`.
pub fn list_contains<T: Shape>(list: &Vec<T>, target: &T, epsilon: u32) -> (found: bool)
    ensures
        found == holds::<T>(views(list@), target@, epsilon),
{
    let mut index: usize = 0;
    while index < list.len()
        invariant
            index <= list.len(),
            forall|i: int| 0 <= i < index ==> !T::agree(#[trigger] views(list@)[i], target@, epsilon),
        decreases list.len() - index,
    {
        if list[index].agrees_with(target, epsilon) {
            assert(views(list@)[index as int] == list@[index as int]@);
            return true;
        }
        assert(views(list@)[index as int] == list@[index as int]@);
        index = index + 1;
    }
    false
}

/// A copy of the list without the items that agree with `target` within `epsilon`.
pub fn list_without<T: Shape>(list: &Vec<T>, target: &T, epsilon: u32) -> (kept: Vec<T>)
    ensures
        views(kept@) == without::<T>(views(list@), target@, epsilon),
{
    let mut kept: Vec<T> = Vec::new();
    let mut index: usize = 0;
    proof {
        assert(views(list@).take(0) =~= Seq::<T::V>::empty());
        assert(views(kept@) =~= Seq::<T::V>::empty());
    }
    while index < list.len()
        invariant
            index <= list.len(),
            views(kept@) == without::<T>(views(list@).take(index as int), target@, epsilon),
        decreases list.len() - index,
    {
        let ghost before = views(list@).take(index as int);
        let ghost after = views(list@).take(index + 1);
        proof {
            assert(after.drop_last() =~= before);
            assert(after.last() == list@[index as int]@);
        }
        if !list[index].agrees_with(target, epsilon) {
            let ghost old_kept = kept@;
            let item = list[index].duplicate();
            kept.push(item);
            proof {
                lemma_views_push(old_kept, item);
            }
        }
        index = index + 1;
    }
    proof {
        assert(views(list@).take(list.len() as int) =~= views(list@));
    }
    kept
}

/// Whether the two lists have the same length and, place by place, items that agree
/// within `epsilon`.
pub fn lists_equal<T: Shape>(first: &Vec<T>, second: &Vec<T>, epsilon: u32) -> (equal: bool)
    ensures
        equal == lists_agree::<T>(views(first@), views(second@), epsilon),
{
    if first.len() != second.len() {
        return false;
    }
    let mut index: usize = 0;
    while index < first.len()
        invariant
            first.len() == second.len(),
            index <= first.len(),
            forall|i: int|
                0 <= i < index ==> T::agree(
                    #[trigger] views(first@)[i],
                    views(second@)[i],
                    epsilon,
                ),
        decreases first.len() - index,
    {
        assert(views(first@)[index as int] == first@[index as int]@);
        assert(views(second@)[index as int] == second@[index as int]@);
        if !first[index].agrees_with(&second[index], epsilon) {
            return false;
        }
        index = index + 1;
    }
    true
}


/// What can be displaced as a whole, by whole database units.
pub trait Movable: Sized + View {
    /// Whether every coordinate still fits thirty-two signed bits after the displacement.
    spec fn can_move(view: Self::V, vector: Point) -> bool;

    /// The thing displaced by `vector`.
    spec fn moved(view: Self::V, vector: Point) -> Self::V;

    /// Displaces the thing by `vector`. Where a coordinate would leave the range of
    /// thirty-two signed bits it stays as it is and `false` is returned.
    fn displace(&mut self, vector: Point) -> (moved: bool)
        ensures
            moved == Self::can_move(old(self)@, vector),
            final(self)@ == if moved {
                Self::moved(old(self)@, vector)
            } else {
                old(self)@
            },
    ;
}

impl Movable for Polygon {
    open spec fn can_move(view: PolygonView, vector: Point) -> bool {
        points_can_move(view.points, vector)
    }

    open spec fn moved(view: PolygonView, vector: Point) -> PolygonView {
        view.moved_by(vector)
    }

    fn displace(&mut self, vector: Point) -> (moved: bool) {
        self.move_by(vector)
    }
}

impl Movable for Path {
    open spec fn can_move(view: PathView, vector: Point) -> bool {
        points_can_move(view.points, vector)
    }

    open spec fn moved(view: PathView, vector: Point) -> PathView {
        view.moved_by(vector)
    }

    fn displace(&mut self, vector: Point) -> (moved: bool) {
        self.move_by(vector)
    }
}

impl Movable for Text {
    open spec fn can_move(view: TextView, vector: Point) -> bool {
        view.origin.can_move_by(vector)
    }

    open spec fn moved(view: TextView, vector: Point) -> TextView {
        view.moved_by(vector)
    }

    fn displace(&mut self, vector: Point) -> (moved: bool) {
        self.move_by(vector)
    }
}

impl Movable for Reference {
    open spec fn can_move(view: ReferenceView, vector: Point) -> bool {
        view.grid.can_move_by(vector)
    }

    open spec fn moved(view: ReferenceView, vector: Point) -> ReferenceView {
        ReferenceView { grid: view.grid.moved_by(vector), ..view }
    }

    fn displace(&mut self, vector: Point) -> (moved: bool) {
        self.move_by(vector)
    }
}

/// Whether every item of the list can be displaced by `vector`.
pub open spec fn all_can_move<T: Movable>(list: Seq<T::V>, vector: Point) -> bool {
    forall|i: int| 0 <= i < list.len() ==> T::can_move(#[trigger] list[i], vector)
}

/// The list with every item displaced by `vector`.
pub open spec fn all_moved<T: Movable>(list: Seq<T::V>, vector: Point) -> Seq<T::V> {
    Seq::new(list.len(), |i: int| T::moved(list[i], vector))
}

/// A copy of the list with every item displaced by `vector`; `None` where a coordinate
/// of some item would leave the range of thirty-two signed bits.
pub fn move_list<T: Movable + Shape>(list: &Vec<T>, vector: Point) -> (moved: Option<Vec<T>>)
    ensures
        moved.is_some() <==> all_can_move::<T>(views(list@), vector),
        moved matches Some(after) ==> views(after@) == all_moved::<T>(views(list@), vector),
{
    let mut after: Vec<T> = Vec::new();
    let mut index: usize = 0;
    while index < list.len()
        invariant
            index <= list.len(),
            after@.len() == index,
            forall|i: int| 0 <= i < index ==> T::can_move(#[trigger] views(list@)[i], vector),
            forall|i: int|
                0 <= i < index ==> (#[trigger] after@[i])@ == T::moved(list@[i]@, vector),
        decreases list.len() - index,
    {
        let mut item = list[index].duplicate();
        assert(views(list@)[index as int] == list@[index as int]@);
        if !item.displace(vector) {
            return None;
        }
        after.push(item);
        index = index + 1;
    }
    assert(views(after@) =~= all_moved::<T>(views(list@), vector));
    Some(after)
}


/// What can be put at a point as a whole.
pub trait Placeable: Sized + View {
    /// The thing put at `target`; `None` where it cannot be put there.
    spec fn put_at(view: Self::V, target: Point) -> Option<Self::V>;

    /// Puts the thing at `target`. Where it cannot be put there it stays as it is and
    /// `false` is returned.
    fn put(&mut self, target: Point) -> (done: bool)
        ensures
            match Self::put_at(old(self)@, target) {
                Some(after) => done && final(self)@ == after,
                None => !done && final(self)@ == old(self)@,
            },
    ;
}

impl Placeable for Polygon {
    open spec fn put_at(view: PolygonView, target: Point) -> Option<PolygonView> {
        if view.can_move_to(target) {
            Some(view.moved_by(offset_between(view.points[0], target)))
        } else {
            None
        }
    }

    fn put(&mut self, target: Point) -> (done: bool) {
        self.move_to(target)
    }
}

impl Placeable for Path {
    open spec fn put_at(view: PathView, target: Point) -> Option<PathView> {
        if view.can_move_to(target) {
            Some(view.moved_by(offset_between(view.points[0], target)))
        } else {
            None
        }
    }

    fn put(&mut self, target: Point) -> (done: bool) {
        self.move_to(target)
    }
}

impl Placeable for Text {
    open spec fn put_at(view: TextView, target: Point) -> Option<TextView> {
        Some(TextView { origin: target, ..view })
    }

    fn put(&mut self, target: Point) -> (done: bool) {
        self.move_to(target);
        true
    }
}

impl Placeable for Reference {
    open spec fn put_at(view: ReferenceView, target: Point) -> Option<ReferenceView> {
        if view.grid.can_move_to(target) {
            Some(
                ReferenceView {
                    grid: view.grid.moved_by(view.grid.offset_to(target)),
                    ..view
                },
            )
        } else {
            None
        }
    }

    fn put(&mut self, target: Point) -> (done: bool) {
        self.move_to(target)
    }
}

/// The items of a list each put at `target`; `None` where one of them cannot be put
/// there.
pub open spec fn all_put<T: Placeable>(list: Seq<T::V>, target: Point) -> Option<Seq<T::V>> {
    if forall|i: int| 0 <= i < list.len() ==> T::put_at(#[trigger] list[i], target) is Some {
        Some(Seq::new(list.len(), |i: int| T::put_at(list[i], target)->Some_0))
    } else {
        None
    }
}

/// A copy of the list with every item put at `target`; `None` where one of them cannot
/// be put there.
pub fn put_list<T: Placeable + Shape>(list: &Vec<T>, target: Point) -> (placed: Option<Vec<T>>)
    ensures
        match placed {
            Some(after) => all_put::<T>(views(list@), target) == Some(views(after@)),
            None => all_put::<T>(views(list@), target).is_none(),
        },
{
    let mut after: Vec<T> = Vec::new();
    let mut index: usize = 0;
    while index < list.len()
        invariant
            index <= list.len(),
            after@.len() == index,
            forall|i: int| 0 <= i < index ==> T::put_at(#[trigger] views(list@)[i], target) is Some,
            forall|i: int|
                0 <= i < index ==> (#[trigger] after@[i])@ == T::put_at(list@[i]@, target)->Some_0,
        decreases list.len() - index,
    {
        let mut item = list[index].duplicate();
        assert(views(list@)[index as int] == list@[index as int]@);
        if !item.put(target) {
            return None;
        }
        after.push(item);
        index = index + 1;
    }
    assert(views(after@) =~= Seq::new(
        list@.len(),
        |i: int| T::put_at(views(list@)[i], target)->Some_0,
    ));
    Some(after)
}

} // verus!
