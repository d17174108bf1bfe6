use vstd::prelude::*;
use crate::grid::Grid;
use crate::path::{Path, PathView};
use crate::point::Point;
use crate::polygon::{Polygon, PolygonView};
use crate::text::{Text, TextView};

verus! {

/// What a reference places: a cell of the library, named, or a single element.
#[derive(Debug)]
pub enum Instance {
    /// The cell of this name in the library that holds the reference.
    Cell(String),
    /// An element of its own.
    Element(Box<Element>),
}

/// A placement of a cell or of an element at every point of a grid.
#[derive(Debug)]
pub struct Reference {
    pub instance: Instance,
    pub grid: Grid,
}

/// One thing that a cell holds.
#[derive(Debug)]
pub enum Element {
    Path(Path),
    Polygon(Polygon),
    Reference(Reference),
    Text(Text),
}

/// What an instance is.
pub enum InstanceView {
    Cell(Seq<char>),
    Element(Box<ElementView>),
}

/// What a reference is.
pub struct ReferenceView {
    pub instance: InstanceView,
    pub grid: Grid,
}

/// What an element is.
pub enum ElementView {
    Path(PathView),
    Polygon(PolygonView),
    Reference(ReferenceView),
    Text(TextView),
}

/// What the instance is.
pub open spec fn instance_view(instance: Instance) -> InstanceView
    decreases instance,
{
    match instance {
        Instance::Cell(name) => InstanceView::Cell(name@),
        Instance::Element(element) => InstanceView::Element(Box::new(element_view(*element))),
    }
}

/// What the reference is.
pub open spec fn reference_view(reference: Reference) -> ReferenceView
    decreases reference,
{
    ReferenceView { instance: instance_view(reference.instance), grid: reference.grid }
}

/// What the element is.
pub open spec fn element_view(element: Element) -> ElementView
    decreases element,
{
    match element {
        Element::Path(path) => ElementView::Path(path@),
        Element::Polygon(polygon) => ElementView::Polygon(polygon@),
        Element::Reference(reference) => ElementView::Reference(reference_view(reference)),
        Element::Text(text) => ElementView::Text(text@),
    }
}

impl View for Instance {
    type V = InstanceView;

    open spec fn view(&self) -> InstanceView {
        instance_view(*self)
    }
}

impl View for Reference {
    type V = ReferenceView;

    open spec fn view(&self) -> ReferenceView {
        reference_view(*self)
    }
}

impl View for Element {
    type V = ElementView;

    open spec fn view(&self) -> ElementView {
        element_view(*self)
    }
}

impl ElementView {
    /// Whether a filter lets the element through. A reference goes through the empty
    /// filter only: what it places has a layer, the reference itself has none.
    pub open spec fn on(self, filter: Seq<(i32, i32)>) -> bool {
        match self {
            ElementView::Path(path) => path.on(filter),
            ElementView::Polygon(polygon) => polygon.on(filter),
            ElementView::Text(text) => text.on(filter),
            ElementView::Reference(reference) => reference.on(filter),
        }
    }

    /// Whether the two elements are of one kind and agree within `epsilon`.
    pub open spec fn equal_within(self, other: ElementView, epsilon: u32) -> bool
        decreases self,
    {
        match (self, other) {
            (ElementView::Path(a), ElementView::Path(b)) => a.equal_within(b, epsilon),
            (ElementView::Polygon(a), ElementView::Polygon(b)) => a.equal_within(b, epsilon),
            (ElementView::Text(a), ElementView::Text(b)) => a.equal_within(b, epsilon),
            (ElementView::Reference(a), ElementView::Reference(b)) => a.equal_within(b, epsilon),
            _ => false,
        }
    }

    /// Whether the element can be displaced by `vector`.
    pub open spec fn can_move_by(self, vector: Point) -> bool {
        match self {
            ElementView::Path(path) => crate::point::points_can_move(path.points, vector),
            ElementView::Polygon(polygon) => crate::point::points_can_move(polygon.points, vector),
            ElementView::Text(text) => text.origin.can_move_by(vector),
            ElementView::Reference(reference) => reference.grid.can_move_by(vector),
        }
    }

    /// The element displaced by `vector`.
    pub open spec fn moved_by(self, vector: Point) -> ElementView {
        match self {
            ElementView::Path(path) => ElementView::Path(path.moved_by(vector)),
            ElementView::Polygon(polygon) => ElementView::Polygon(polygon.moved_by(vector)),
            ElementView::Text(text) => ElementView::Text(text.moved_by(vector)),
            ElementView::Reference(reference) => ElementView::Reference(
                ReferenceView { grid: reference.grid.moved_by(vector), ..reference },
            ),
        }
    }

}

impl ReferenceView {
    /// Whether a filter lets the reference through: whether the filter is empty.
    pub open spec fn on(self, filter: Seq<(i32, i32)>) -> bool {
        filter.len() == 0
    }

    /// Whether the two references agree: grids that agree within `epsilon`, and either
    /// the same cell name or elements that agree within `epsilon`.
    pub open spec fn equal_within(self, other: ReferenceView, epsilon: u32) -> bool
        decreases self,
    {
        &&& self.grid.equal_within(other.grid, epsilon)
        &&& match (self.instance, other.instance) {
            (InstanceView::Cell(a), InstanceView::Cell(b)) => a == b,
            (InstanceView::Element(a), InstanceView::Element(b)) => a.equal_within(*b, epsilon),
            _ => false,
        }
    }
}

impl Instance {
    /// A copy of the instance.
    pub fn copy(&self) -> (instance: Instance)
        ensures
            instance@ == self@,
        decreases self,
    {
        match self {
            Instance::Cell(name) => Instance::Cell(name.clone()),
            Instance::Element(element) => Instance::Element(Box::new(element.copy())),
        }
    }
}

impl Reference {
    /// A reference that places `instance` over `grid`; without a grid, once and at the
    /// origin of the coordinates.
    pub fn new(instance: Instance, grid: Option<Grid>) -> (reference: Reference)
        ensures
            reference@ == (ReferenceView {
                instance: instance@,
                grid: match grid {
                    Some(given) => given,
                    None => Grid::default_spec(),
                },
            }),
    {
        let grid = match grid {
            Some(given) => given,
            None => Grid::single(),
        };
        Reference { instance, grid }
    }

    /// A copy of the reference.
    pub fn copy(&self) -> (reference: Reference)
        ensures
            reference@ == self@,
        decreases self,
    {
        Reference { instance: self.instance.copy(), grid: self.grid }
    }

    /// Whether the filter lets the reference through: whether the filter is empty.
    pub fn is_on(&self, layer_data_types: &Vec<(i32, i32)>) -> (on: bool)
        ensures
            on == self@.on(layer_data_types@),
    {
        layer_data_types.len() == 0
    }

    /// Whether the two references agree within `epsilon`.
    pub fn is_equal(&self, other: &Reference, epsilon: u32) -> (equal: bool)
        ensures
            equal == self@.equal_within(other@, epsilon),
        decreases self,
    {
        if !self.grid.is_equal(&other.grid, epsilon) {
            return false;
        }
        match (&self.instance, &other.instance) {
            (Instance::Cell(a), Instance::Cell(b)) => *a == *b,
            (Instance::Element(a), Instance::Element(b)) => a.is_equal(b, epsilon),
            _ => false,
        }
    }

    /// Displaces the grid by `vector`. Where a coordinate would leave the range of
    /// thirty-two signed bits the reference stays as it is and `false` is returned.
    pub fn move_by(&mut self, vector: Point) -> (moved: bool)
        ensures
            moved == old(self)@.grid.can_move_by(vector),
            final(self)@ == if moved {
                ReferenceView { grid: old(self)@.grid.moved_by(vector), ..old(self)@ }
            } else {
                old(self)@
            },
    {
        self.grid.move_by(vector)
    }

    /// Displaces the grid so that its origin comes to lie on `point`. Where a coordinate
    /// would leave the range of thirty-two signed bits the reference stays as it is and
    /// `false` is returned.
    pub fn move_to(&mut self, point: Point) -> (moved: bool)
        ensures
            moved == old(self)@.grid.can_move_to(point),
            final(self)@ == if moved {
                ReferenceView {
                    grid: old(self)@.grid.moved_by(old(self)@.grid.offset_to(point)),
                    ..old(self)@
                }
            } else {
                old(self)@
            },
    {
        self.grid.move_to(point)
    }
}

impl Element {
    /// A copy of the element.
    pub fn copy(&self) -> (element: Element)
        ensures
            element@ == self@,
        decreases self,
    {
        match self {
            Element::Path(path) => Element::Path(path.copy()),
            Element::Polygon(polygon) => Element::Polygon(polygon.copy()),
            Element::Reference(reference) => Element::Reference(reference.copy()),
            Element::Text(text) => Element::Text(text.copy()),
        }
    }

    /// Whether the filter lets the element through.
    pub fn is_on(&self, layer_data_types: &Vec<(i32, i32)>) -> (on: bool)
        ensures
            on == self@.on(layer_data_types@),
    {
        match self {
            Element::Path(path) => path.is_on(layer_data_types),
            Element::Polygon(polygon) => polygon.is_on(layer_data_types),
            Element::Reference(reference) => reference.is_on(layer_data_types),
            Element::Text(text) => text.is_on(layer_data_types),
        }
    }

    /// Whether the two elements are of one kind and agree within `epsilon`.
    pub fn is_equal(&self, other: &Element, epsilon: u32) -> (equal: bool)
        ensures
            equal == self@.equal_within(other@, epsilon),
        decreases self,
    {
        match (self, other) {
            (Element::Path(a), Element::Path(b)) => a.is_equal(b, epsilon),
            (Element::Polygon(a), Element::Polygon(b)) => a.is_equal(b, epsilon),
            (Element::Text(a), Element::Text(b)) => a.is_equal(b, epsilon),
            (Element::Reference(a), Element::Reference(b)) => a.is_equal(b, epsilon),
            _ => false,
        }
    }
}


impl Element {
    /// Displaces the element by `vector`. Where a coordinate would leave the range of
    /// thirty-two signed bits the element stays as it is and `false` is returned.
    pub fn move_by(&mut self, vector: Point) -> (moved: bool)
        ensures
            moved == old(self)@.can_move_by(vector),
            final(self)@ == if moved {
                old(self)@.moved_by(vector)
            } else {
                old(self)@
            },
    {
        match self {
            Element::Path(path) => path.move_by(vector),
            Element::Polygon(polygon) => polygon.move_by(vector),
            Element::Text(text) => text.move_by(vector),
            Element::Reference(reference) => reference.move_by(vector),
        }
    }
}


/// An element put at `target`; `None` where it cannot be put there.
pub open spec fn element_put_at(element: ElementView, target: Point) -> Option<ElementView> {
    match element {
        ElementView::Path(path) => if path.can_move_to(target) {
            Some(
                ElementView::Path(
                    path.moved_by(crate::point::offset_between(path.points[0], target)),
                ),
            )
        } else {
            None
        },
        ElementView::Polygon(polygon) => if polygon.can_move_to(target) {
            Some(
                ElementView::Polygon(
                    polygon.moved_by(crate::point::offset_between(polygon.points[0], target)),
                ),
            )
        } else {
            None
        },
        ElementView::Text(text) => Some(ElementView::Text(TextView { origin: target, ..text })),
        ElementView::Reference(reference) => if reference.grid.can_move_to(target) {
            Some(
                ElementView::Reference(
                    ReferenceView {
                        grid: reference.grid.moved_by(reference.grid.offset_to(target)),
                        ..reference
                    },
                ),
            )
        } else {
            None
        },
    }
}

impl Element {
    /// Puts the element at `target`: a polygon or a path with its first point, a text
    /// or a reference with its origin. Where it cannot be put there it stays as it is
    /// and `false` is returned.
    pub fn move_to(&mut self, target: Point) -> (moved: bool)
        ensures
            match element_put_at(old(self)@, target) {
                Some(after) => moved && final(self)@ == after,
                None => !moved && final(self)@ == old(self)@,
            },
    {
        match self {
            Element::Path(path) => path.move_to(target),
            Element::Polygon(polygon) => polygon.move_to(target),
            Element::Text(text) => {
                text.move_to(target);
                true
            },
            Element::Reference(reference) => reference.move_to(target),
        }
    }
}

} // verus!
