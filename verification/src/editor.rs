//! The fan curve as a draggable graph: what the pointer does to it, and what is
//! drawn.

use crate::config;
use crate::config::Point;
use crate::protocol::MIN_RPM;
use crate::text;
use vstd::prelude::*;

verus! {

/// Colder than this and no cooler matters; hotter and nothing is fine anyway.
pub const TEMP_MIN: u8 = 20;

pub const TEMP_MAX: u8 = 100;

/// How close the pointer has to be to grab a point: twelve, as the bits of a
/// single precision float.
pub const GRAB_RADIUS_BITS: u32 = 0x4140_0000;

pub struct Editor<'a> {
    pub points: &'a [Point],
    /// Ceiling of the vertical axis: the supply decides what the fan can do, so
    /// drawing a curve above it would promise a speed the cooler will not run.
    pub max_rpm: u16,
    pub reading_c: Option<u8>,
    pub demand_rpm: Option<u16>,
}

/// The point being dragged, if one is.
#[derive(Debug, Clone, Copy, PartialEq, Eq, Structural)]
pub struct Grabbed {
    pub index: Option<usize>,
}

impl Default for Grabbed {
    fn default() -> (grabbed: Self)
        ensures
            grabbed.index is None,
    {
        Grabbed { index: None }
    }
}

/// Where the pointer is over the graph.
#[derive(Debug, Clone, Copy, PartialEq, Eq, Structural)]
pub struct Aim {
    /// The point close enough to be grabbed.
    pub nearest: Option<usize>,
    /// The point that would be put here.
    pub point: Point,
}

/// What the pointer did.
#[derive(Debug, Clone, Copy, PartialEq, Eq, Structural)]
pub enum Pointer {
    /// The left button went down, over the graph or not.
    Pressed(Option<Aim>),
    /// The right button went down, with a point close by or not.
    RightPressed(Option<usize>),
    /// It moved. Dragging keeps working past the edge of the graph, which is
    /// what a pointer flicked at the top of it expects.
    Moved(Option<Point>),
    /// The left button went up.
    Released,
}

/// What comes of it.
#[derive(Debug, Clone, Copy, PartialEq, Eq, Structural)]
pub enum Action {
    /// A point was grabbed.
    Redraw,
    Add(Point),
    Move { index: usize, point: Point },
    Remove(usize),
    /// The drag is over.
    Settle,
}

/// How the pointer should look.
#[derive(Debug, Clone, Copy, PartialEq, Eq, Structural)]
pub enum Interaction {
    Grabbing,
    Grab,
    Crosshair,
    Normal,
}

impl Grabbed {
    /// What is grabbed after the pointer did something, and what comes of it.
    pub open spec fn after(self, pointer: Pointer) -> (Grabbed, Option<Action>) {
        match pointer {
            Pointer::Pressed(Some(aim)) => match aim.nearest {
                Some(index) => (Grabbed { index: Some(index) }, Some(Action::Redraw)),
                None => (self, Some(Action::Add(aim.point))),
            },
            Pointer::RightPressed(Some(index)) => (self, Some(Action::Remove(index))),
            Pointer::Moved(Some(point)) => match self.index {
                Some(index) => (self, Some(Action::Move { index, point })),
                None => (self, None),
            },
            Pointer::Released => (
                Grabbed { index: None },
                if self.index is Some {
                    Some(Action::Settle)
                } else {
                    None
                },
            ),
            _ => (self, None),
        }
    }

    pub fn update(&mut self, pointer: Pointer) -> (action: Option<Action>)
        ensures
            (*final(self), action) == old(self).after(pointer),
    {
        match pointer {
            Pointer::Pressed(Some(aim)) => match aim.nearest {
                Some(index) => {
                    self.index = Some(index);
                    Some(Action::Redraw)
                },
                None => Some(Action::Add(aim.point)),
            },
            Pointer::RightPressed(Some(index)) => Some(Action::Remove(index)),
            Pointer::Moved(Some(point)) => match self.index {
                Some(index) => Some(Action::Move { index, point }),
                None => None,
            },
            Pointer::Released => match self.index {
                Some(_) => {
                    self.index = None;
                    Some(Action::Settle)
                },
                None => None,
            },
            _ => None,
        }
    }

    /// How the pointer should look with a point near it or not, over the graph
    /// or not.
    pub fn interaction(&self, near: bool, over: bool) -> (r: Interaction)
        ensures
            r == (if self.index is Some {
                Interaction::Grabbing
            } else if near {
                Interaction::Grab
            } else if over {
                Interaction::Crosshair
            } else {
                Interaction::Normal
            }),
    {
        if self.index.is_some() {
            Interaction::Grabbing
        } else if near {
            Interaction::Grab
        } else if over {
            Interaction::Crosshair
        } else {
            Interaction::Normal
        }
    }

    /// Is a point drawn as the one being handled?
    pub fn active(&self, hovered: Option<usize>, index: usize) -> (r: bool)
        ensures
            r == (self.index == Some(index) || hovered == Some(index)),
    {
        self.index == Some(index) || hovered == Some(index)
    }
}

/// A speed the cooler can hold: those between a stop and the slowest are
/// snapped away, since the fan stalls there and takes twenty seconds of
/// retrying to spin back up.
pub open spec fn snapped(rpm: u16) -> u16 {
    if rpm < MIN_RPM / 2 {
        0
    } else if rpm < MIN_RPM {
        MIN_RPM
    } else {
        rpm
    }
}

/// A point at a place of the graph, with a speed the cooler can hold.
pub fn to_point(temp_c: u8, rpm: u16) -> (point: Point)
    ensures
        point == (Point { temp_c, rpm: snapped(rpm) }),
{
    Point {
        temp_c,
        rpm: if rpm < MIN_RPM / 2 {
            0
        } else if rpm < MIN_RPM {
            MIN_RPM
        } else {
            rpm
        },
    }
}

/// A drawn point never asks for a speed at which the fan stalls, and a speed it
/// can hold stays as it is.
pub proof fn law_no_point_stalls_the_fan(rpm: u16)
    ensures
        snapped(rpm) == 0 || snapped(rpm) >= MIN_RPM,
        rpm >= MIN_RPM ==> snapped(rpm) == rpm,
        snapped(snapped(rpm)) == snapped(rpm),
{
}

/// The closest of the distances before `end` that is close enough, and of equal
/// ones the first.
pub open spec fn closest(distances: Seq<u32>, end: int) -> Option<int>
    decreases end,
{
    if end <= 0 {
        None
    } else if distances[end - 1] > GRAB_RADIUS_BITS {
        closest(distances, end - 1)
    } else {
        match closest(distances, end - 1) {
            Some(best) if distances[best] <= distances[end - 1] => Some(best),
            _ => Some(end - 1),
        }
    }
}

/// The point to grab, if one is close enough.
///
/// Distances come as the bits of single precision floats, which order like the
/// distances themselves as long as none is negative.
pub fn nearest(distances: &Vec<u32>) -> (r: Option<usize>)
    ensures
        match r {
            Some(index) => closest(distances@, distances@.len() as int) == Some(index as int),
            None => closest(distances@, distances@.len() as int) is None,
        },
{
    let mut best: Option<usize> = None;
    let mut i: usize = 0;
    while i < distances.len()
        invariant
            i <= distances@.len(),
            match best {
                Some(index) => index < i && closest(distances@, i as int) == Some(index as int),
                None => closest(distances@, i as int) is None,
            },
        decreases distances@.len() - i,
    {
        if distances[i] <= GRAB_RADIUS_BITS {
            let closer = match best {
                Some(index) => distances[index] > distances[i],
                None => true,
            };
            if closer {
                best = Some(i);
            }
        }
        i += 1;
    }
    best
}

impl Editor<'_> {
    /// The points from cold to hot, whatever order they are kept in.
    pub fn sorted(&self) -> (points: Vec<Point>)
        ensures
            points@ == config::sorted(self.points@),
    {
        let mut points: Vec<Point> = Vec::new();
        points.extend_from_slice(self.points);
        proof {
            assert(points@ =~= self.points@);
        }
        config::sort_points(&mut points);
        points
    }

    /// The line through the points, with the first and the last speed carried
    /// to the edges of the graph. Nothing without points.
    pub fn outline(&self) -> (line: Vec<Point>)
        ensures
            line@ == (if self.points@.len() == 0 {
                Seq::empty()
            } else {
                let sorted = config::sorted(self.points@);
                seq![Point { temp_c: TEMP_MIN, rpm: sorted.first().rpm }] + sorted + seq![
                    Point { temp_c: TEMP_MAX, rpm: sorted.last().rpm },
                ]
            }),
    {
        let mut line: Vec<Point> = Vec::new();
        let sorted = self.sorted();
        proof {
            config::law_sorting_keeps_every_point(self.points@);
        }
        if sorted.len() == 0 {
            return line;
        }
        let first = sorted[0];
        let last = sorted[sorted.len() - 1];
        line.push(Point { temp_c: TEMP_MIN, rpm: first.rpm });
        line.extend_from_slice(sorted.as_slice());
        line.push(Point { temp_c: TEMP_MAX, rpm: last.rpm });
        proof {
            assert(line@ =~= seq![Point { temp_c: TEMP_MIN, rpm: first.rpm }] + sorted@ + seq![
                Point { temp_c: TEMP_MAX, rpm: last.rpm },
            ]);
        }
        line
    }

    /// The speeds to draw a rule at: every thousand up to the ceiling.
    pub fn rules(&self) -> (rules: Vec<u16>)
        ensures
            rules@ == Seq::new((self.max_rpm / 1000 + 1) as nat, |i: int| (1000 * i) as u16),
    {
        let count: u16 = self.max_rpm / 1000 + 1;
        let mut rules: Vec<u16> = Vec::new();
        let mut i: u16 = 0;
        while i < count
            invariant
                i <= count,
                count <= 66,
                count == self.max_rpm / 1000 + 1,
                rules@ == Seq::new(i as nat, |i: int| (1000 * i) as u16),
            decreases count - i,
        {
            rules.push(1000 * i);
            i += 1;
            proof {
                assert(rules@ =~= Seq::new(i as nat, |i: int| (1000 * i) as u16));
            }
        }
        rules
    }
}

/// The temperatures to draw a rule at: every ten degrees from edge to edge.
pub fn marks() -> (marks: Vec<u8>)
    ensures
        marks@ == Seq::new(9, |i: int| (TEMP_MIN + 10 * i) as u8),
        marks@.first() == TEMP_MIN,
        marks@.last() == TEMP_MAX,
{
    let mut marks: Vec<u8> = Vec::new();
    let mut i: u8 = 0;
    while i < 9
        invariant
            i <= 9,
            marks@ == Seq::new(i as nat, |i: int| (TEMP_MIN + 10 * i) as u8),
        decreases 9 - i,
    {
        marks.push(TEMP_MIN + 10 * i);
        i += 1;
        proof {
            assert(marks@ =~= Seq::new(i as nat, |i: int| (TEMP_MIN + 10 * i) as u8));
        }
    }
    marks
}

/// What is written next to a point being handled.
pub fn point_label(point: Point) -> (text: String)
    ensures
        text@ == text::dec(point.temp_c as nat) + " C / "@ + text::dec(point.rpm as nat)
            + " rpm"@,
{
    let mut text = text::decimal(point.temp_c as u64);
    text.append(" C / ");
    text::push_dec(&mut text, point.rpm as u64);
    text.append(" rpm");
    text
}

/// A drawn speed below half the slowest is a stop, from there up to the slowest
/// it is the slowest, and above it is what was drawn.
pub proof fn law_drawn_speeds_snap(rpm: u16)
    ensures
        rpm < 250 ==> snapped(rpm) == 0,
        250 <= rpm <= 500 ==> snapped(rpm) == 500,
        rpm >= 500 ==> snapped(rpm) == rpm,
{
}

/// The point grabbed is within reach and no other is closer, nor as close and
/// earlier in the list; none is grabbed only when none is within reach.
pub proof fn law_the_closest_point_is_grabbed(distances: Seq<u32>, end: int, i: int)
    requires
        0 <= end <= distances.len(),
    ensures
        closest(distances, end) matches Some(best) ==> 0 <= best < end && distances[best]
            <= 0x4140_0000 && (0 <= i < end ==> distances[best] <= distances[i]) && (0 <= i < best
            ==> distances[best] < distances[i]),
        closest(distances, end) is None && 0 <= i < end ==> distances[i] > 0x4140_0000,
    decreases end,
{
    if end > 0 {
        law_the_closest_point_is_grabbed(distances, end - 1, i);
    }
}

/// A press near a point grabs that point, one anywhere else on the graph puts a
/// point there, and one off the graph does nothing.
pub proof fn law_a_press_grabs_or_adds(grabbed: Grabbed, aim: Aim, index: usize)
    ensures
        aim.nearest == Some(index) ==> grabbed.after(Pointer::Pressed(Some(aim))) == (
            Grabbed { index: Some(index) },
            Some(Action::Redraw),
        ),
        aim.nearest is None ==> grabbed.after(Pointer::Pressed(Some(aim))) == (
            grabbed,
            Some(Action::Add(aim.point)),
        ),
        grabbed.after(Pointer::Pressed(None)) == (grabbed, None::<Action>),
{
}

/// A grabbed point follows the pointer until the button goes up, which settles
/// it; with nothing grabbed the pointer moves nothing and settles nothing.
pub proof fn law_a_grabbed_point_follows(grabbed: Grabbed, index: usize, point: Point)
    ensures
        grabbed.index == Some(index) ==> grabbed.after(Pointer::Moved(Some(point))) == (
            grabbed,
            Some(Action::Move { index, point }),
        ),
        grabbed.index is None ==> grabbed.after(Pointer::Moved(Some(point))).1 is None,
        grabbed.after(Pointer::Moved(None)) == (grabbed, None::<Action>),
        grabbed.after(Pointer::Released).0.index is None,
        grabbed.after(Pointer::Released).1 == (if grabbed.index is Some {
            Some(Action::Settle)
        } else {
            None
        }),
{
}

/// The right button takes out the point it is pressed on, and lets go of
/// nothing.
pub proof fn law_the_right_button_removes(grabbed: Grabbed, index: usize)
    ensures
        grabbed.after(Pointer::RightPressed(Some(index))) == (
            grabbed,
            Some(Action::Remove(index)),
        ),
        grabbed.after(Pointer::RightPressed(None)) == (grabbed, None::<Action>),
{
}

} // verus!
