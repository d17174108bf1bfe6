use vstd::prelude::*;
use crate::element::{Element, ElementView, Reference, ReferenceView};
use crate::path::{Path, PathView};
use crate::polygon::{Polygon, PolygonView};
use crate::text::{Text, TextView};
use crate::point::Point;
use crate::traits::{
    all_can_move, all_moved, all_put, copy_list, put_list, holds, lemma_views_push, list_contains, list_without,
    lists_agree, lists_equal, move_list, views, without,
};

verus! {

/// A named collection of elements, each kind in a list of its own. The name is what
/// references and the stream know the cell by.
#[derive(Debug)]
pub struct Cell {
    pub name: String,
    pub polygons: Vec<Polygon>,
    pub paths: Vec<Path>,
    pub references: Vec<Reference>,
    pub texts: Vec<Text>,
}

/// What a cell is: its name and the four lists of what it holds.
pub struct CellView {
    pub name: Seq<char>,
    pub polygons: Seq<PolygonView>,
    pub paths: Seq<PathView>,
    pub references: Seq<ReferenceView>,
    pub texts: Seq<TextView>,
}

impl View for Cell {
    type V = CellView;

    open spec fn view(&self) -> CellView {
        CellView {
            name: self.name@,
            polygons: views(self.polygons@),
            paths: views(self.paths@),
            references: views(self.references@),
            texts: views(self.texts@),
        }
    }
}

impl CellView {
    /// The empty cell of the given name.
    pub open spec fn empty(name: Seq<char>) -> CellView {
        CellView {
            name,
            polygons: Seq::empty(),
            paths: Seq::empty(),
            references: Seq::empty(),
            texts: Seq::empty(),
        }
    }

    /// The cell with `element` added at the end of the list of its kind.
    pub open spec fn with(self, element: ElementView) -> CellView {
        match element {
            ElementView::Polygon(polygon) => CellView {
                polygons: self.polygons.push(polygon),
                ..self
            },
            ElementView::Path(path) => CellView { paths: self.paths.push(path), ..self },
            ElementView::Reference(reference) => CellView {
                references: self.references.push(reference),
                ..self
            },
            ElementView::Text(text) => CellView { texts: self.texts.push(text), ..self },
        }
    }

    /// The cell with the elements added, one after the other.
    pub open spec fn with_all(self, elements: Seq<ElementView>) -> CellView
        decreases elements.len(),
    {
        if elements.len() == 0 {
            self
        } else {
            self.with_all(elements.drop_last()).with(elements.last())
        }
    }

    /// The cell without the elements of the kind of `element` that agree with it within
    /// `epsilon`.
    pub open spec fn lacking(self, element: ElementView, epsilon: u32) -> CellView {
        match element {
            ElementView::Polygon(polygon) => CellView {
                polygons: without::<Polygon>(self.polygons, polygon, epsilon),
                ..self
            },
            ElementView::Path(path) => CellView {
                paths: without::<Path>(self.paths, path, epsilon),
                ..self
            },
            ElementView::Reference(reference) => CellView {
                references: without::<Reference>(self.references, reference, epsilon),
                ..self
            },
            ElementView::Text(text) => CellView {
                texts: without::<Text>(self.texts, text, epsilon),
                ..self
            },
        }
    }

    /// The cell without the elements that agree with one of `elements` within `epsilon`.
    pub open spec fn lacking_all(self, elements: Seq<ElementView>, epsilon: u32) -> CellView
        decreases elements.len(),
    {
        if elements.len() == 0 {
            self
        } else {
            self.lacking_all(elements.drop_last(), epsilon).lacking(elements.last(), epsilon)
        }
    }

    /// Whether the cell holds an element of the kind of `element` that agrees with it
    /// within `epsilon`.
    pub open spec fn has(self, element: ElementView, epsilon: u32) -> bool {
        match element {
            ElementView::Polygon(polygon) => holds::<Polygon>(self.polygons, polygon, epsilon),
            ElementView::Path(path) => holds::<Path>(self.paths, path, epsilon),
            ElementView::Reference(reference) => holds::<Reference>(
                self.references,
                reference,
                epsilon,
            ),
            ElementView::Text(text) => holds::<Text>(self.texts, text, epsilon),
        }
    }

    /// Whether the cell holds nothing.
    pub open spec fn is_empty(self) -> bool {
        self.polygons.len() == 0 && self.paths.len() == 0 && self.references.len() == 0
            && self.texts.len() == 0
    }

    /// Whether everything in the cell can be displaced by `vector`.
    pub open spec fn can_move_by(self, vector: Point) -> bool {
        &&& all_can_move::<Polygon>(self.polygons, vector)
        &&& all_can_move::<Path>(self.paths, vector)
        &&& all_can_move::<Reference>(self.references, vector)
        &&& all_can_move::<Text>(self.texts, vector)
    }

    /// The cell with everything in it displaced by `vector`.
    pub open spec fn moved_by(self, vector: Point) -> CellView {
        CellView {
            name: self.name,
            polygons: all_moved::<Polygon>(self.polygons, vector),
            paths: all_moved::<Path>(self.paths, vector),
            references: all_moved::<Reference>(self.references, vector),
            texts: all_moved::<Text>(self.texts, vector),
        }
    }

    /// Whether the two cells agree: the same name and, list by list and place by place,
    /// elements that agree within `epsilon`.
    pub open spec fn equal_within(self, other: CellView, epsilon: u32) -> bool {
        &&& self.name == other.name
        &&& lists_agree::<Polygon>(self.polygons, other.polygons, epsilon)
        &&& lists_agree::<Path>(self.paths, other.paths, epsilon)
        &&& lists_agree::<Reference>(self.references, other.references, epsilon)
        &&& lists_agree::<Text>(self.texts, other.texts, epsilon)
    }
}

impl Cell {
    /// An empty cell of the given name.
    pub fn new(name: String) -> (cell: Cell)
        ensures
            cell@ == CellView::empty(name@),
    {
        let cell = Cell {
            name,
            polygons: Vec::new(),
            paths: Vec::new(),
            references: Vec::new(),
            texts: Vec::new(),
        };
        assert(cell@.polygons =~= Seq::empty());
        assert(cell@.paths =~= Seq::empty());
        assert(cell@.references =~= Seq::empty());
        assert(cell@.texts =~= Seq::empty());
        cell
    }

    /// Adds one element at the end of the list of its kind.
    pub fn add_element(&mut self, element: Element)
        ensures
            final(self)@ == old(self)@.with(element@),
    {
        match element {
            Element::Polygon(polygon) => {
                proof {
                    lemma_views_push(self.polygons@, polygon);
                }
                self.polygons.push(polygon);
            },
            Element::Path(path) => {
                proof {
                    lemma_views_push(self.paths@, path);
                }
                self.paths.push(path);
            },
            Element::Reference(reference) => {
                proof {
                    lemma_views_push(self.references@, reference);
                }
                self.references.push(reference);
            },
            Element::Text(text) => {
                proof {
                    lemma_views_push(self.texts@, text);
                }
                self.texts.push(text);
            },
        }
    }

    /// Adds the elements, each at the end of the list of its kind, in the order given.
    pub fn add(&mut self, elements: Vec<Element>)
        ensures
            final(self)@ == old(self)@.with_all(views(elements@)),
    {
        let mut index: usize = 0;
        proof {
            assert(views(elements@).take(0) =~= Seq::<ElementView>::empty());
        }
        while index < elements.len()
            invariant
                index <= elements.len(),
                self@ == old(self)@.with_all(views(elements@).take(index as int)),
            decreases elements.len() - index,
        {
            proof {
                let after = views(elements@).take(index + 1);
                assert(after.drop_last() =~= views(elements@).take(index as int));
                assert(after.last() == elements@[index as int]@);
            }
            self.add_element(elements[index].copy());
            index = index + 1;
        }
        proof {
            assert(views(elements@).take(elements.len() as int) =~= views(elements@));
        }
    }

    /// Removes the elements of the kind of `element` that agree with it within
    /// `epsilon`; the others keep their order.
    pub fn remove_element(&mut self, element: &Element, epsilon: u32)
        ensures
            final(self)@ == old(self)@.lacking(element@, epsilon),
    {
        match element {
            Element::Polygon(polygon) => {
                self.polygons = list_without(&self.polygons, polygon, epsilon);
            },
            Element::Path(path) => {
                self.paths = list_without(&self.paths, path, epsilon);
            },
            Element::Reference(reference) => {
                self.references = list_without(&self.references, reference, epsilon);
            },
            Element::Text(text) => {
                self.texts = list_without(&self.texts, text, epsilon);
            },
        }
    }

    /// Removes every element that agrees within `epsilon` with one of `elements`, taken
    /// in the order given. Elements are compared by what they are, not by where they are
    /// kept.
    pub fn remove(&mut self, elements: &Vec<Element>, epsilon: u32)
        ensures
            final(self)@ == old(self)@.lacking_all(views(elements@), epsilon),
    {
        let mut index: usize = 0;
        proof {
            assert(views(elements@).take(0) =~= Seq::<ElementView>::empty());
        }
        while index < elements.len()
            invariant
                index <= elements.len(),
                self@ == old(self)@.lacking_all(views(elements@).take(index as int), epsilon),
            decreases elements.len() - index,
        {
            proof {
                let after = views(elements@).take(index + 1);
                assert(after.drop_last() =~= views(elements@).take(index as int));
                assert(after.last() == elements@[index as int]@);
            }
            self.remove_element(&elements[index], epsilon);
            index = index + 1;
        }
        proof {
            assert(views(elements@).take(elements.len() as int) =~= views(elements@));
        }
    }

    /// Whether the cell holds an element of the kind of `element` that agrees with it
    /// within `epsilon`.
    pub fn contains(&self, element: &Element, epsilon: u32) -> (found: bool)
        ensures
            found == self@.has(element@, epsilon),
    {
        match element {
            Element::Polygon(polygon) => list_contains(&self.polygons, polygon, epsilon),
            Element::Path(path) => list_contains(&self.paths, path, epsilon),
            Element::Reference(reference) => list_contains(&self.references, reference, epsilon),
            Element::Text(text) => list_contains(&self.texts, text, epsilon),
        }
    }

    /// Whether the cell holds nothing.
    pub fn is_empty(&self) -> (empty: bool)
        ensures
            empty == self@.is_empty(),
    {
        self.polygons.len() == 0 && self.paths.len() == 0 && self.references.len() == 0
            && self.texts.len() == 0
    }

    /// A copy of the cell.
    pub fn copy(&self) -> (cell: Cell)
        ensures
            cell@ == self@,
    {
        Cell {
            name: self.name.clone(),
            polygons: copy_list(&self.polygons),
            paths: copy_list(&self.paths),
            references: copy_list(&self.references),
            texts: copy_list(&self.texts),
        }
    }

    /// Whether the two cells agree within `epsilon`.
    pub fn is_equal(&self, other: &Cell, epsilon: u32) -> (equal: bool)
        ensures
            equal == self@.equal_within(other@, epsilon),
    {
        self.name == other.name && lists_equal(&self.polygons, &other.polygons, epsilon)
            && lists_equal(&self.paths, &other.paths, epsilon) && lists_equal(
            &self.references,
            &other.references,
            epsilon,
        ) && lists_equal(&self.texts, &other.texts, epsilon)
    }
}


impl Cell {
    /// Displaces everything in the cell by `vector`: the points of the polygons and of
    /// the paths, the origins of the texts, and the grids of the references. Where a
    /// coordinate of anything would leave the range of thirty-two signed bits, the cell
    /// stays as it is and `false` is returned.
    pub fn move_by(&mut self, vector: Point) -> (moved: bool)
        ensures
            moved == old(self)@.can_move_by(vector),
            final(self)@ == if moved {
                old(self)@.moved_by(vector)
            } else {
                old(self)@
            },
    {
        let polygons = match move_list(&self.polygons, vector) {
            Some(list) => list,
            None => {
                return false;
            },
        };
        let paths = match move_list(&self.paths, vector) {
            Some(list) => list,
            None => {
                return false;
            },
        };
        let references = match move_list(&self.references, vector) {
            Some(list) => list,
            None => {
                return false;
            },
        };
        let texts = match move_list(&self.texts, vector) {
            Some(list) => list,
            None => {
                return false;
            },
        };
        self.polygons = polygons;
        self.paths = paths;
        self.references = references;
        self.texts = texts;
        true
    }
}


/// A cell with everything in it put at `target`: every polygon and path displaced so
/// that its first point lies there, every text and every grid with its origin there.
/// `None` where something in the cell cannot be put there.
pub open spec fn cell_put_at(cell: CellView, target: Point) -> Option<CellView> {
    match (
        all_put::<Polygon>(cell.polygons, target),
        all_put::<Path>(cell.paths, target),
        all_put::<Reference>(cell.references, target),
        all_put::<Text>(cell.texts, target),
    ) {
        (Some(polygons), Some(paths), Some(references), Some(texts)) => Some(
            CellView { name: cell.name, polygons, paths, references, texts },
        ),
        _ => None,
    }
}

impl Cell {
    /// Puts everything in the cell at `target`, each thing by itself. Where something
    /// cannot be put there, for want of points or of room in thirty-two signed bits, the
    /// cell stays as it is and `false` is returned.
    pub fn move_to(&mut self, target: Point) -> (moved: bool)
        ensures
            match cell_put_at(old(self)@, target) {
                Some(after) => moved && final(self)@ == after,
                None => !moved && final(self)@ == old(self)@,
            },
    {
        let polygons = match put_list(&self.polygons, target) {
            Some(list) => list,
            None => {
                return false;
            },
        };
        let paths = match put_list(&self.paths, target) {
            Some(list) => list,
            None => {
                return false;
            },
        };
        let references = match put_list(&self.references, target) {
            Some(list) => list,
            None => {
                return false;
            },
        };
        let texts = match put_list(&self.texts, target) {
            Some(list) => list,
            None => {
                return false;
            },
        };
        self.polygons = polygons;
        self.paths = paths;
        self.references = references;
        self.texts = texts;
        true
    }
}

} // verus!
