use vstd::prelude::*;
use crate::error::GeometryError;
use crate::filter::{accepts_layer, filter_accepts_layer};
use crate::number::Real;
use crate::point::Point;
use crate::validation::{check_layer_valid, layer_valid};

verus! {

/// Where a text is anchored vertically.
#[derive(Debug, Clone, Copy, PartialEq, Eq, Structural)]
pub enum VerticalPresentation {
    Top,
    Middle,
    Bottom,
}

/// Where a text is anchored horizontally.
#[derive(Debug, Clone, Copy, PartialEq, Eq, Structural)]
pub enum HorizontalPresentation {
    Left,
    Centre,
    Right,
}

impl VerticalPresentation {
    /// The number of the anchor: 0 for the top, 1 for the middle, 2 for the bottom.
    pub open spec fn code(self) -> i32 {
        match self {
            VerticalPresentation::Top => 0,
            VerticalPresentation::Middle => 1,
            VerticalPresentation::Bottom => 2,
        }
    }

    /// The anchor with the given number; `None` unless it is 0, 1 or 2.
    pub fn new(value: i32) -> (anchor: Option<VerticalPresentation>)
        ensures
            anchor.is_some() <==> 0 <= value <= 2,
            anchor matches Some(vertical) ==> vertical.code() == value,
    {
        match value {
            0 => Some(VerticalPresentation::Top),
            1 => Some(VerticalPresentation::Middle),
            2 => Some(VerticalPresentation::Bottom),
            _ => None,
        }
    }

    /// The name of the anchor.
    pub fn name(&self) -> (name: String)
        ensures
            name@ == match self {
                VerticalPresentation::Top => "Top"@,
                VerticalPresentation::Middle => "Middle"@,
                VerticalPresentation::Bottom => "Bottom"@,
            },
    {
        match self {
            VerticalPresentation::Top => "Top".to_owned(),
            VerticalPresentation::Middle => "Middle".to_owned(),
            VerticalPresentation::Bottom => "Bottom".to_owned(),
        }
    }

    /// The number of the anchor.
    pub fn value(&self) -> (code: i32)
        ensures
            code == self.code(),
    {
        match self {
            VerticalPresentation::Top => 0,
            VerticalPresentation::Middle => 1,
            VerticalPresentation::Bottom => 2,
        }
    }
}

impl HorizontalPresentation {
    /// The number of the anchor: 0 for the left, 1 for the centre, 2 for the right.
    pub open spec fn code(self) -> i32 {
        match self {
            HorizontalPresentation::Left => 0,
            HorizontalPresentation::Centre => 1,
            HorizontalPresentation::Right => 2,
        }
    }

    /// The anchor with the given number; `None` unless it is 0, 1 or 2.
    pub fn new(value: i32) -> (anchor: Option<HorizontalPresentation>)
        ensures
            anchor.is_some() <==> 0 <= value <= 2,
            anchor matches Some(horizontal) ==> horizontal.code() == value,
    {
        match value {
            0 => Some(HorizontalPresentation::Left),
            1 => Some(HorizontalPresentation::Centre),
            2 => Some(HorizontalPresentation::Right),
            _ => None,
        }
    }

    /// The name of the anchor.
    pub fn name(&self) -> (name: String)
        ensures
            name@ == match self {
                HorizontalPresentation::Left => "Left"@,
                HorizontalPresentation::Centre => "Centre"@,
                HorizontalPresentation::Right => "Right"@,
            },
    {
        match self {
            HorizontalPresentation::Left => "Left".to_owned(),
            HorizontalPresentation::Centre => "Centre".to_owned(),
            HorizontalPresentation::Right => "Right".to_owned(),
        }
    }

    /// The number of the anchor.
    pub fn value(&self) -> (code: i32)
        ensures
            code == self.code(),
    {
        match self {
            HorizontalPresentation::Left => 0,
            HorizontalPresentation::Centre => 1,
            HorizontalPresentation::Right => 2,
        }
    }
}

/// The presentation flags of a pair of anchors: the vertical one in bits 2 and 3, the
/// horizontal one in bits 0 and 1.
pub open spec fn presentation_flags(
    vertical: VerticalPresentation,
    horizontal: HorizontalPresentation,
) -> int {
    4 * vertical.code() + horizontal.code()
}

/// The presentation flags of a pair of anchors.
pub fn get_presentation_value(
    vertical_presentation: VerticalPresentation,
    horizontal_presentation: HorizontalPresentation,
) -> (flags: u16)
    ensures
        flags == presentation_flags(vertical_presentation, horizontal_presentation),
{
    let vertical: u16 = match vertical_presentation {
        VerticalPresentation::Top => 0,
        VerticalPresentation::Middle => 4,
        VerticalPresentation::Bottom => 8,
    };
    let horizontal: u16 = match horizontal_presentation {
        HorizontalPresentation::Left => 0,
        HorizontalPresentation::Centre => 1,
        HorizontalPresentation::Right => 2,
    };
    vertical + horizontal
}

/// Whether `value` is the flags of some pair of anchors.
pub open spec fn is_presentation(value: u16) -> bool {
    value < 11 && value % 4 != 3
}

/// The pair of anchors that the presentation flags `value` name; `None` where they name
/// none, which is so for every value with another bit set than bits 0 to 3, or with 3 in
/// either pair of bits.
pub fn get_presentations_from_value(value: u16) -> (anchors: Option<
    (VerticalPresentation, HorizontalPresentation),
>)
    ensures
        anchors.is_some() <==> is_presentation(value),
        anchors matches Some((vertical, horizontal)) ==> presentation_flags(vertical, horizontal)
            == value,
{
    if value >= 11 || value % 4 == 3 {
        return None;
    }
    let vertical = match value / 4 {
        0 => VerticalPresentation::Top,
        1 => VerticalPresentation::Middle,
        _ => VerticalPresentation::Bottom,
    };
    let horizontal = match value % 4 {
        0 => HorizontalPresentation::Left,
        1 => HorizontalPresentation::Centre,
        _ => HorizontalPresentation::Right,
    };
    Some((vertical, horizontal))
}

/// A label: a string put at a point, on a layer.
#[derive(Debug)]
pub struct Text {
    pub text: String,
    pub origin: Point,
    pub layer: i32,
    pub magnification: Real,
    pub angle: Real,
    pub x_reflection: bool,
    pub vertical_presentation: VerticalPresentation,
    pub horizontal_presentation: HorizontalPresentation,
}

/// What a text is: its characters, and its other fields as they are.
pub struct TextView {
    pub text: Seq<char>,
    pub origin: Point,
    pub layer: i32,
    pub magnification: Real,
    pub angle: Real,
    pub x_reflection: bool,
    pub vertical_presentation: VerticalPresentation,
    pub horizontal_presentation: HorizontalPresentation,
}

impl View for Text {
    type V = TextView;

    open spec fn view(&self) -> TextView {
        TextView {
            text: self.text@,
            origin: self.origin,
            layer: self.layer,
            magnification: self.magnification,
            angle: self.angle,
            x_reflection: self.x_reflection,
            vertical_presentation: self.vertical_presentation,
            horizontal_presentation: self.horizontal_presentation,
        }
    }
}

impl TextView {
    /// Whether the two texts agree: the same characters, origins less than `epsilon`
    /// apart, magnification and angle equal as numbers, and the rest the same.
    pub open spec fn equal_within(self, other: TextView, epsilon: u32) -> bool {
        &&& self.text == other.text
        &&& self.origin.close_to(other.origin, epsilon)
        &&& self.layer == other.layer
        &&& self.magnification.same_number_spec(other.magnification)
        &&& self.angle.same_number_spec(other.angle)
        &&& self.x_reflection == other.x_reflection
        &&& self.vertical_presentation == other.vertical_presentation
        &&& self.horizontal_presentation == other.horizontal_presentation
    }

    /// Whether a filter lets the text through. A text has no data type, so only the
    /// layers of the filter's pairs count.
    pub open spec fn on(self, filter: Seq<(i32, i32)>) -> bool {
        accepts_layer(filter, self.layer)
    }

    /// The text displaced by `vector`.
    pub open spec fn moved_by(self, vector: Point) -> TextView {
        TextView { origin: self.origin.moved_by(vector), ..self }
    }
}

impl Text {
    /// A text with the given fields; a layer outside 0 to 255 is refused.
    pub fn new(
        text: String,
        origin: Point,
        layer: i32,
        magnification: Real,
        angle: Real,
        x_reflection: bool,
        vertical_presentation: VerticalPresentation,
        horizontal_presentation: HorizontalPresentation,
    ) -> (result: Result<Text, GeometryError>)
        ensures
            result.is_ok() <==> layer_valid(layer),
            result matches Ok(made) ==> made@ == (TextView {
                text: text@,
                origin,
                layer,
                magnification,
                angle,
                x_reflection,
                vertical_presentation,
                horizontal_presentation,
            }),
            result matches Err(error) ==> error == GeometryError::LayerOutOfRange,
    {
        match check_layer_valid(layer) {
            Err(error) => {
                return Err(error);
            },
            Ok(_) => {},
        }
        Ok(
            Text {
                text,
                origin,
                layer,
                magnification,
                angle,
                x_reflection,
                vertical_presentation,
                horizontal_presentation,
            },
        )
    }

    /// A copy of the text.
    pub fn copy(&self) -> (text: Text)
        ensures
            text@ == self@,
    {
        Text {
            text: self.text.clone(),
            origin: self.origin,
            layer: self.layer,
            magnification: self.magnification,
            angle: self.angle,
            x_reflection: self.x_reflection,
            vertical_presentation: self.vertical_presentation,
            horizontal_presentation: self.horizontal_presentation,
        }
    }

    /// Whether the filter lets the text through: whether it is empty or holds a pair
    /// with the text's layer.
    pub fn is_on(&self, layer_data_types: &Vec<(i32, i32)>) -> (on: bool)
        ensures
            on == self@.on(layer_data_types@),
    {
        filter_accepts_layer(layer_data_types, self.layer)
    }

    /// Whether the two texts agree within `epsilon`.
    pub fn is_equal(&self, other: &Text, epsilon: u32) -> (equal: bool)
        ensures
            equal == self@.equal_within(other@, epsilon),
    {
        self.text == other.text && self.origin.epsilon_is_close(other.origin, epsilon)
            && self.layer == other.layer && self.magnification.same_number(&other.magnification)
            && self.angle.same_number(&other.angle) && self.x_reflection == other.x_reflection
            && self.vertical_presentation.value() == other.vertical_presentation.value()
            && self.horizontal_presentation.value() == other.horizontal_presentation.value()
    }

    /// Displaces the origin by `vector`. Where a coordinate would leave the range of
    /// thirty-two signed bits the text stays as it is and `false` is returned.
    pub fn move_by(&mut self, vector: Point) -> (moved: bool)
        ensures
            moved == old(self)@.origin.can_move_by(vector),
            final(self)@ == if moved {
                old(self)@.moved_by(vector)
            } else {
                old(self)@
            },
    {
        match self.origin.move_by(vector) {
            Some(origin) => {
                self.origin = origin;
                true
            },
            None => false,
        }
    }

    /// Puts the origin at `target`.
    pub fn move_to(&mut self, target: Point)
        ensures
            final(self)@ == (TextView { origin: target, ..old(self)@ }),
    {
        self.origin = target;
    }
}

} // verus!
