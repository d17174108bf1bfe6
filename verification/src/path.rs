use vstd::prelude::*;
use crate::error::GeometryError;
use crate::filter::{accepts, filter_accepts};
use crate::point::{
    copy_points, move_points, offset, offset_between, offset_exists, points_are_close,
    points_can_move, points_close, points_moved, Point,
};
use crate::validation::{
    check_data_type_valid, check_layer_valid, check_points_vec_has_at_least_two_points,
    layer_valid,
};

verus! {

/// How the two ends of a path are drawn.
#[derive(Debug, Clone, Copy, PartialEq, Eq, Structural)]
pub enum PathType {
    /// Cut off square at the end points.
    Square,
    /// Rounded, with the end points as centres.
    Round,
    /// Square, and drawn out beyond the end points by half the width.
    Overlap,
}

impl PathType {
    /// The number that stands for this style in a stream.
    pub open spec fn code(self) -> i32 {
        match self {
            PathType::Square => 0,
            PathType::Round => 1,
            PathType::Overlap => 2,
        }
    }

    /// The style that `value` stands for; `None` unless `value` is 0, 1 or 2.
    pub fn new(value: i32) -> (style: Option<PathType>)
        ensures
            style.is_some() <==> 0 <= value <= 2,
            style matches Some(path_type) ==> path_type.code() == value,
    {
        match value {
            0 => Some(PathType::Square),
            1 => Some(PathType::Round),
            2 => Some(PathType::Overlap),
            _ => None,
        }
    }

    /// The number that stands for this style in a stream.
    pub fn value(&self) -> (code: i32)
        ensures
            code == self.code(),
    {
        match self {
            PathType::Square => 0,
            PathType::Round => 1,
            PathType::Overlap => 2,
        }
    }

    /// The name of the style.
    pub fn name(&self) -> (name: String)
        ensures
            name@ == match self {
                PathType::Square => "Square Ends"@,
                PathType::Round => "Round Ends"@,
                PathType::Overlap => "Overlap Ends"@,
            },
    {
        match self {
            PathType::Square => "Square Ends".to_owned(),
            PathType::Round => "Round Ends".to_owned(),
            PathType::Overlap => "Overlap Ends".to_owned(),
        }
    }

    /// The three styles, in the order of their numbers.
    pub fn values() -> (styles: Vec<PathType>)
        ensures
            styles@ == seq![PathType::Square, PathType::Round, PathType::Overlap],
    {
        let mut styles: Vec<PathType> = Vec::new();
        styles.push(PathType::Square);
        styles.push(PathType::Round);
        styles.push(PathType::Overlap);
        assert(styles@ =~= seq![PathType::Square, PathType::Round, PathType::Overlap]);
        styles
    }
}

/// An open line through points, on a layer, with an optional width in database units.
#[derive(Debug)]
pub struct Path {
    pub points: Vec<Point>,
    pub layer: i32,
    pub data_type: i32,
    pub path_type: Option<PathType>,
    pub width: Option<i32>,
}

/// What a path is: its points in order, and its other fields as they are.
pub struct PathView {
    pub points: Seq<Point>,
    pub layer: i32,
    pub data_type: i32,
    pub path_type: Option<PathType>,
    pub width: Option<i32>,
}

impl View for Path {
    type V = PathView;

    open spec fn view(&self) -> PathView {
        PathView {
            points: self.points@,
            layer: self.layer,
            data_type: self.data_type,
            path_type: self.path_type,
            width: self.width,
        }
    }
}

impl PathView {
    /// Whether the two paths agree: the same number of points, place by place less than
    /// `epsilon` apart, and the same layer, data type, style and width.
    pub open spec fn equal_within(self, other: PathView, epsilon: u32) -> bool {
        &&& points_close(self.points, other.points, epsilon)
        &&& self.layer == other.layer
        &&& self.data_type == other.data_type
        &&& self.path_type == other.path_type
        &&& self.width == other.width
    }

    /// Whether a filter lets the path through.
    pub open spec fn on(self, filter: Seq<(i32, i32)>) -> bool {
        accepts(filter, self.layer, self.data_type)
    }

    /// The path displaced by `vector`.
    pub open spec fn moved_by(self, vector: Point) -> PathView {
        PathView { points: points_moved(self.points, vector), ..self }
    }

    /// Whether the path can be displaced so that its first point comes to lie on
    /// `target`.
    pub open spec fn can_move_to(self, target: Point) -> bool {
        &&& self.points.len() > 0
        &&& offset_exists(self.points[0], target)
        &&& points_can_move(self.points, offset_between(self.points[0], target))
    }
}

impl Path {
    /// What `new` answers for the given arguments.
    pub open spec fn new_spec(
        points: Seq<Point>,
        layer: i32,
        data_type: i32,
        path_type: Option<PathType>,
        width: Option<i32>,
    ) -> Result<PathView, GeometryError> {
        if points.len() == 0 {
            Err(GeometryError::EmptyPoints)
        } else if points.len() < 2 {
            Err(GeometryError::TooFewPoints)
        } else if !layer_valid(layer) {
            Err(GeometryError::LayerOutOfRange)
        } else {
            Ok(PathView { points, layer, data_type, path_type, width })
        }
    }

    /// A path through `points`. An empty list is refused, then a single point, then a
    /// layer outside 0 to 255.
    pub fn new(
        points: Vec<Point>,
        layer: i32,
        data_type: i32,
        path_type: Option<PathType>,
        width: Option<i32>,
    ) -> (result: Result<Path, GeometryError>)
        ensures
            match result {
                Ok(path) => Path::new_spec(points@, layer, data_type, path_type, width) == Ok::<
                    PathView,
                    GeometryError,
                >(path@),
                Err(error) => Path::new_spec(points@, layer, data_type, path_type, width) == Err::<
                    PathView,
                    GeometryError,
                >(error),
            },
    {
        match check_points_vec_has_at_least_two_points(&points) {
            Err(error) => {
                return Err(error);
            },
            Ok(_) => {},
        }
        match check_layer_valid(layer) {
            Err(error) => {
                return Err(error);
            },
            Ok(_) => {},
        }
        match check_data_type_valid(data_type) {
            Err(error) => {
                return Err(error);
            },
            Ok(_) => {},
        }
        Ok(Path { points, layer, data_type, path_type, width })
    }

    /// A copy of the path.
    pub fn copy(&self) -> (path: Path)
        ensures
            path@ == self@,
    {
        Path {
            points: copy_points(&self.points),
            layer: self.layer,
            data_type: self.data_type,
            path_type: self.path_type,
            width: self.width,
        }
    }

    /// Whether the filter lets the path through: whether it is empty or holds the path's
    /// layer and data type as a pair.
    pub fn is_on(&self, layer_data_types: &Vec<(i32, i32)>) -> (on: bool)
        ensures
            on == self@.on(layer_data_types@),
    {
        filter_accepts(layer_data_types, self.layer, self.data_type)
    }

    /// Whether the two paths agree within `epsilon`.
    pub fn is_equal(&self, other: &Path, epsilon: u32) -> (equal: bool)
        ensures
            equal == self@.equal_within(other@, epsilon),
    {
        let same_style = match (self.path_type, other.path_type) {
            (None, None) => true,
            (Some(first), Some(second)) => first.value() == second.value(),
            _ => false,
        };
        let same_width = match (self.width, other.width) {
            (None, None) => true,
            (Some(first), Some(second)) => first == second,
            _ => false,
        };
        points_are_close(&self.points, &other.points, epsilon) && self.layer == other.layer
            && self.data_type == other.data_type && same_style && same_width
    }

    /// Displaces every point by `vector`. Where a coordinate would leave the range of
    /// thirty-two signed bits the path stays as it is and `false` is returned.
    pub fn move_by(&mut self, vector: Point) -> (moved: bool)
        ensures
            moved == points_can_move(old(self)@.points, vector),
            final(self)@ == if moved {
                old(self)@.moved_by(vector)
            } else {
                old(self)@
            },
    {
        match move_points(&self.points, vector) {
            Some(points) => {
                self.points = points;
                true
            },
            None => false,
        }
    }

    /// Displaces the path so that its first point comes to lie on `target`. A path
    /// without points, or one of which a coordinate would leave the range of thirty-two
    /// signed bits, stays as it is, and `false` is returned.
    pub fn move_to(&mut self, target: Point) -> (moved: bool)
        ensures
            moved == old(self)@.can_move_to(target),
            final(self)@ == if moved {
                old(self)@.moved_by(offset_between(old(self)@.points[0], target))
            } else {
                old(self)@
            },
    {
        if self.points.len() == 0 {
            return false;
        }
        match offset(self.points[0], target) {
            Some(vector) => self.move_by(vector),
            None => false,
        }
    }
}

} // verus!
