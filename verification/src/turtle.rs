//! Turtle graphics, held exactly.
//!
//! A turtle has a position and a heading and is driven by four commands: put
//! it somewhere, point it somewhere, move it forward, turn it. The turtle of
//! this module does no geometry. It writes down each command it is given, in
//! order and with exact arguments, so that what a fractal draws can be stated
//! and compared without rounding. A renderer replays the commands.

use vstd::prelude::*;

verus! {

/// A decimal number with three digits after the point, held as a count of
/// thousandths: `Decimal { thousandths: -500 }` is -0.5.
#[derive(Clone, Copy, Debug, PartialEq, Eq)]
pub struct Decimal {
    pub thousandths: i64,
}

impl Decimal {
    /// The whole number `units`.
    pub fn whole(units: i32) -> (number: Decimal)
        ensures
            number.thousandths == units * 1000,
    {
        Decimal { thousandths: units as i64 * 1000 }
    }

    /// The number `tenths` / 10.
    pub fn tenths(tenths: i32) -> (number: Decimal)
        ensures
            number.thousandths == tenths * 100,
    {
        Decimal { thousandths: tenths as i64 * 100 }
    }
}

/// A point of the plane.
#[derive(Clone, Copy, Debug, PartialEq, Eq)]
pub struct Point {
    pub x: Decimal,
    pub y: Decimal,
}

/// A length that shrinks with depth: `base / scale_factor ^ power`.
#[derive(Clone, Copy, Debug, PartialEq, Eq)]
pub struct Distance {
    pub base: Decimal,
    pub scale_factor: Decimal,
    pub power: u64,
}

/// One command to a turtle.
#[derive(Clone, Copy, Debug, PartialEq, Eq)]
pub enum TurtleStep {
    /// Put the turtle at a point, drawing nothing.
    SetPos(Point),
    /// Point the turtle along an angle given in radians.
    SetRad(Decimal),
    /// Move the turtle forward along its heading, drawing a segment.
    Forward(Distance),
    /// Turn the turtle by an angle given in degrees, counter-clockwise where
    /// it is positive.
    TurnDeg(Decimal),
}

impl TurtleStep {
    /// Whether the command moves or turns the turtle from where it is, as
    /// opposed to placing it.
    pub open spec fn is_relative(self) -> bool {
        self is Forward || self is TurnDeg
    }
}

/// A turtle that records the commands it receives.
pub struct Turtle {
    steps: Vec<TurtleStep>,
}

impl View for Turtle {
    type V = Seq<TurtleStep>;

    /// The commands received so far, oldest first.
    closed spec fn view(&self) -> Seq<TurtleStep> {
        self.steps@
    }
}

impl Turtle {
    /// A turtle that has received nothing.
    pub fn new() -> (turtle: Turtle)
        ensures
            turtle@ == Seq::<TurtleStep>::empty(),
    {
        Turtle { steps: Vec::new() }
    }

    /// Puts the turtle at `pos`.
    pub fn set_pos(&mut self, pos: Point)
        ensures
            final(self)@ == old(self)@.push(TurtleStep::SetPos(pos)),
    {
        self.steps.push(TurtleStep::SetPos(pos));
    }

    /// Points the turtle along `heading`, in radians.
    pub fn set_rad(&mut self, heading: Decimal)
        ensures
            final(self)@ == old(self)@.push(TurtleStep::SetRad(heading)),
    {
        self.steps.push(TurtleStep::SetRad(heading));
    }

    /// Moves the turtle forward by `distance`.
    pub fn forward(&mut self, distance: Distance)
        ensures
            final(self)@ == old(self)@.push(TurtleStep::Forward(distance)),
    {
        self.steps.push(TurtleStep::Forward(distance));
    }

    /// Turns the turtle by `angle`, in degrees.
    pub fn turn_deg(&mut self, angle: Decimal)
        ensures
            final(self)@ == old(self)@.push(TurtleStep::TurnDeg(angle)),
    {
        self.steps.push(TurtleStep::TurnDeg(angle));
    }

    /// Ends the recording and hands out the commands, oldest first.
    pub fn into_path(self) -> (path: Vec<TurtleStep>)
        ensures
            path@ == self@,
    {
        self.steps
    }
}

} // verus!
