//! The servo command pipeline: the angles of the two servos, and the routine
//! that turns rotation commands into positions to apply.
//!
//! The routine decides; the caller waits and acts. While the routine is idle
//! the caller waits for a command. While it drives, the caller applies the
//! angles that the routine hands out, waits for [`SERVO_ROTATION_INTERVAL`]
//! milliseconds, looks without waiting whether a newer command has arrived,
//! and asks the routine again.

use vstd::prelude::*;

verus! {

/// Milliseconds between two positions applied to the servos.
pub const SERVO_ROTATION_INTERVAL: u64 = 500;

/// The largest angle of a servo, in degrees.
pub const SERVO_MAX_ANGLE: u8 = 180;

/// The angle of the upper servo when the routine starts.
pub const SERVO_UP_DEFAULT_ANGLE: u8 = 90;

/// The angle of the lower servo when the routine starts.
pub const SERVO_DOWN_DEFAULT_ANGLE: u8 = 90;

/// Why the servo cannot be used.
#[derive(Clone, Copy, Debug, PartialEq, Eq, Structural)]
pub enum Error {
    ServoNotEnabled,
    DeviceNotAvailable,
    CommunicationFailure,
}

impl Error {
    /// The text that describes the error.
    pub open spec fn spec_message(self) -> Seq<char> {
        match self {
            Error::ServoNotEnabled => "Servo feature is not enabled"@,
            Error::DeviceNotAvailable => "Failed to open servo control device"@,
            Error::CommunicationFailure => "Error during communication with the servo device"@,
        }
    }

    /// The text that describes the error.
    pub fn message(&self) -> (text: &'static str)
        ensures
            text@ == self.spec_message(),
    {
        match self {
            Error::ServoNotEnabled => "Servo feature is not enabled",
            Error::DeviceNotAvailable => "Failed to open servo control device",
            Error::CommunicationFailure => "Error during communication with the servo device",
        }
    }
}

/// A rotation command: how far to turn the lower servo (`dx`) and the upper
/// servo (`dy`) at each interval, in degrees. Both zero means stop.
#[derive(Clone, Copy, Debug, PartialEq, Eq, Structural)]
pub struct ServoControl {
    pub dx: i8,
    pub dy: i8,
}

impl ServoControl {
    /// Whether the command is the one that stops the movement.
    pub open spec fn spec_should_stop(self) -> bool {
        self.dx == 0 && self.dy == 0
    }

    /// Whether the command is the one that stops the movement.
    pub fn should_stop(&self) -> (stop: bool)
        ensures
            stop == self.spec_should_stop(),
    {
        self.dx == 0 && self.dy == 0
    }
}

/// An angle moved by `update` degrees and held within what a servo can
/// reach: below zero it stays at zero, beyond the largest angle at that.
pub open spec fn spec_update_degree(degree: u8, update: i8) -> u8 {
    if degree + update < 0 {
        0
    } else if degree + update > SERVO_MAX_ANGLE {
        SERVO_MAX_ANGLE
    } else {
        (degree + update) as u8
    }
}

/// Moves an angle by `update` degrees, stopping at either end of the range.
pub fn update_degree(degree: u8, update: i8) -> (moved: u8)
    requires
        degree <= SERVO_MAX_ANGLE,
    ensures
        moved == spec_update_degree(degree, update),
        moved <= SERVO_MAX_ANGLE,
{
    let target: i16 = degree as i16 + update as i16;
    if target < 0 {
        0
    } else if target > SERVO_MAX_ANGLE as i16 {
        SERVO_MAX_ANGLE
    } else {
        target as u8
    }
}

/// The angles of the two servos, each within the range of a servo.
#[derive(Clone, Copy, Debug, PartialEq, Eq)]
pub struct ServoAngles {
    up_degree: u8,
    down_degree: u8,
}

impl ServoAngles {
    #[verifier::type_invariant]
    spec fn within_range(self) -> bool {
        self.up_degree <= SERVO_MAX_ANGLE && self.down_degree <= SERVO_MAX_ANGLE
    }

    /// The angle of the upper servo.
    pub closed spec fn spec_up_degree(self) -> u8 {
        self.up_degree
    }

    /// The angle of the lower servo.
    pub closed spec fn spec_down_degree(self) -> u8 {
        self.down_degree
    }

    /// The angles after a command: `dx` moves the lower servo, `dy` the upper.
    pub open spec fn spec_rotated(self, dx: i8, dy: i8) -> (u8, u8) {
        (
            spec_update_degree(self.spec_up_degree(), dy),
            spec_update_degree(self.spec_down_degree(), dx),
        )
    }

    /// Both servos at their default angle.
    pub fn new() -> (angles: Self)
        ensures
            angles.spec_up_degree() == SERVO_UP_DEFAULT_ANGLE,
            angles.spec_down_degree() == SERVO_DOWN_DEFAULT_ANGLE,
    {
        ServoAngles { up_degree: SERVO_UP_DEFAULT_ANGLE, down_degree: SERVO_DOWN_DEFAULT_ANGLE }
    }

    /// Angles as given, each brought down to the largest angle if beyond it.
    pub fn at(up_degree: u8, down_degree: u8) -> (angles: Self)
        ensures
            angles.spec_up_degree() == if up_degree > SERVO_MAX_ANGLE {
                SERVO_MAX_ANGLE
            } else {
                up_degree
            },
            angles.spec_down_degree() == if down_degree > SERVO_MAX_ANGLE {
                SERVO_MAX_ANGLE
            } else {
                down_degree
            },
    {
        ServoAngles {
            up_degree: if up_degree > SERVO_MAX_ANGLE {
                SERVO_MAX_ANGLE
            } else {
                up_degree
            },
            down_degree: if down_degree > SERVO_MAX_ANGLE {
                SERVO_MAX_ANGLE
            } else {
                down_degree
            },
        }
    }

    /// The angle of the upper servo.
    pub fn up_degree(&self) -> (degree: u8)
        ensures
            degree == self.spec_up_degree(),
            degree <= SERVO_MAX_ANGLE,
    {
        proof {
            use_type_invariant(self);
        }
        self.up_degree
    }

    /// The angle of the lower servo.
    pub fn down_degree(&self) -> (degree: u8)
        ensures
            degree == self.spec_down_degree(),
            degree <= SERVO_MAX_ANGLE,
    {
        proof {
            use_type_invariant(self);
        }
        self.down_degree
    }

    /// Turns both servos by one command. Each angle stops at the end of its
    /// range instead of going beyond or wrapping round.
    pub fn rotate(&mut self, dx: i8, dy: i8)
        ensures
            (final(self).spec_up_degree(), final(self).spec_down_degree()) == old(
                self,
            ).spec_rotated(dx, dy),
    {
        proof {
            use_type_invariant(&*self);
        }
        let down: u8 = update_degree(self.down_degree, dx);
        let up: u8 = update_degree(self.up_degree, dy);
        *self = ServoAngles { up_degree: up, down_degree: down };
    }
}

/// What the caller of the routine does next.
#[derive(Clone, Copy, Debug, PartialEq, Eq, Structural)]
pub enum DriveStep {
    /// Nothing moves: wait until a command arrives.
    Idle,
    /// Apply these angles to the servos, wait one interval, and come back
    /// with the newest command if one has arrived meanwhile.
    Apply { up_degree: u8, down_degree: u8 },
}

/// The routine as contracts see it.
pub struct RoutineModel {
    pub up_degree: u8,
    pub down_degree: u8,
    /// The command that is being carried out, if the servos move.
    pub in_flight: Option<ServoControl>,
}

impl RoutineModel {
    /// The command to go on with: the one that has just arrived, or else the
    /// one in flight.
    pub open spec fn effective(self, arrived: Option<ServoControl>) -> Option<ServoControl> {
        if arrived is Some {
            arrived
        } else {
            self.in_flight
        }
    }

    /// Whether the servos move after `arrived`: there is a command to go on
    /// with, and it is not the one that stops.
    pub open spec fn moves(self, arrived: Option<ServoControl>) -> bool {
        self.effective(arrived) matches Some(control) && !control.spec_should_stop()
    }

    /// The routine after one interval, or after a command woke it up.
    pub open spec fn advance(self, arrived: Option<ServoControl>) -> (RoutineModel, DriveStep) {
        if self.moves(arrived) {
            let control = self.effective(arrived)->0;
            let up_degree = spec_update_degree(self.up_degree, control.dy);
            let down_degree = spec_update_degree(self.down_degree, control.dx);
            (
                RoutineModel { up_degree, down_degree, in_flight: Some(control) },
                DriveStep::Apply { up_degree, down_degree },
            )
        } else {
            (
                RoutineModel {
                    up_degree: self.up_degree,
                    down_degree: self.down_degree,
                    in_flight: None,
                },
                DriveStep::Idle,
            )
        }
    }

    /// The routine after a run of intervals, and how many positions it has
    /// handed out to apply.
    pub open spec fn run(self, arrivals: Seq<Option<ServoControl>>) -> (RoutineModel, nat)
        decreases arrivals.len(),
    {
        if arrivals.len() == 0 {
            (self, 0)
        } else {
            let (next, step) = self.advance(arrivals[0]);
            let (last, applied) = next.run(arrivals.subrange(1, arrivals.len() as int));
            let here: nat = if step is Apply {
                1
            } else {
                0
            };
            (last, here + applied)
        }
    }
}

/// How many of `arrivals` are commands that move the servos.
pub open spec fn spec_moving_commands(arrivals: Seq<Option<ServoControl>>) -> nat
    decreases arrivals.len(),
{
    if arrivals.len() == 0 {
        0
    } else {
        let here: nat = if arrivals[0] matches Some(control) && !control.spec_should_stop() {
            1
        } else {
            0
        };
        here + spec_moving_commands(arrivals.subrange(1, arrivals.len() as int))
    }
}

/// The routine that drives the servos.
pub struct ServoControlRoutine {
    angles: ServoAngles,
    in_flight: Option<ServoControl>,
}

impl View for ServoControlRoutine {
    type V = RoutineModel;

    closed spec fn view(&self) -> RoutineModel {
        RoutineModel {
            up_degree: self.angles.spec_up_degree(),
            down_degree: self.angles.spec_down_degree(),
            in_flight: self.in_flight,
        }
    }
}

impl ServoControlRoutine {
    /// An idle routine with the servos at `angles`.
    pub fn new(angles: ServoAngles) -> (routine: Self)
        ensures
            routine@ == (RoutineModel {
                up_degree: angles.spec_up_degree(),
                down_degree: angles.spec_down_degree(),
                in_flight: None,
            }),
    {
        ServoControlRoutine { angles, in_flight: None }
    }

    /// The angles of the servos as the routine has them.
    pub fn angles(&self) -> (angles: ServoAngles)
        ensures
            angles.spec_up_degree() == self@.up_degree,
            angles.spec_down_degree() == self@.down_degree,
            self@.up_degree <= SERVO_MAX_ANGLE,
            self@.down_degree <= SERVO_MAX_ANGLE,
    {
        proof {
            use_type_invariant(self.angles);
        }
        self.angles
    }

    /// Whether no command is being carried out.
    pub fn is_idle(&self) -> (idle: bool)
        ensures
            idle == (self@.in_flight is None),
    {
        self.in_flight.is_none()
    }

    /// One turn of the routine. `arrived` is the command that woke the
    /// routine up, or the newest one found after an interval, if any.
    ///
    /// A newer command takes the place of the one in flight. A command that
    /// moves turns the servos once and stays in flight; the command that
    /// stops, or no command at all, leaves the servos where they are and the
    /// routine idle.
    pub fn advance(&mut self, arrived: Option<ServoControl>) -> (step: DriveStep)
        ensures
            (final(self)@, step) == old(self)@.advance(arrived),
            final(self)@.up_degree <= SERVO_MAX_ANGLE,
            final(self)@.down_degree <= SERVO_MAX_ANGLE,
    {
        proof {
            use_type_invariant(self.angles);
        }
        let effective: Option<ServoControl> = match arrived {
            Some(control) => Some(control),
            None => self.in_flight,
        };
        match effective {
            Some(control) => {
                if control.should_stop() {
                    self.in_flight = None;
                    DriveStep::Idle
                } else {
                    self.angles.rotate(control.dx, control.dy);
                    self.in_flight = Some(control);
                    DriveStep::Apply {
                        up_degree: self.angles.up_degree(),
                        down_degree: self.angles.down_degree(),
                    }
                }
            },
            None => {
                self.in_flight = None;
                DriveStep::Idle
            },
        }
    }
}

/// When every interval brings a command, the servos are moved once for each
/// command that moves and never for one that stops: a burst of commands
/// reaches the servos at most once each, and the stop command ends the drive.
pub proof fn lemma_applies_once_per_moving_command(
    model: RoutineModel,
    arrivals: Seq<Option<ServoControl>>,
)
    requires
        forall|i: int| 0 <= i < arrivals.len() ==> (#[trigger] arrivals[i]) is Some,
    ensures
        model.run(arrivals).1 == spec_moving_commands(arrivals),
        arrivals.len() > 0 ==> (model.run(arrivals).0.in_flight is None
            <==> arrivals.last()->0.spec_should_stop()),
    decreases arrivals.len(),
{
    if arrivals.len() > 0 {
        let tail = arrivals.subrange(1, arrivals.len() as int);
        let (next, step) = model.advance(arrivals[0]);
        assert forall|i: int| 0 <= i < tail.len() implies (#[trigger] tail[i]) is Some by {
            assert(tail[i] == arrivals[i + 1]);
        }
        lemma_applies_once_per_moving_command(next, tail);
        if tail.len() > 0 {
            assert(tail.last() == arrivals.last());
        }
    }
}

/// Whatever the commands, the angles stay within the range of a servo.
pub proof fn lemma_angles_stay_in_range(model: RoutineModel, arrived: Option<ServoControl>)
    requires
        model.up_degree <= SERVO_MAX_ANGLE,
        model.down_degree <= SERVO_MAX_ANGLE,
    ensures
        model.advance(arrived).0.up_degree <= SERVO_MAX_ANGLE,
        model.advance(arrived).0.down_degree <= SERVO_MAX_ANGLE,
{
}

} // verus!
