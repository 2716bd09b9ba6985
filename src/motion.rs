use vstd::prelude::*;

verus! {

/// Movement speed, in world units per second.
pub const MOVE_SPEED: i64 = 200;

/// One full unit of a direction axis, in thousandths.
pub const DIRECTION_UNIT: i32 = 1000;

/// A position on the unbounded plane, in millionths of a world unit.
#[derive(Clone, Copy, Debug, PartialEq, Eq, Structural)]
pub struct Position {
    pub x: i64,
    pub y: i64,
}

/// The origin, where every player spawns.
pub open spec fn origin() -> Position {
    Position { x: 0, y: 0 }
}

/// A movement command: a direction whose axes are thousandths in
/// [-1000, 1000], that is at most one unit per axis.
#[derive(Clone, Copy, Debug, PartialEq, Eq, Structural)]
pub struct MoveCommand {
    pub dx: i32,
    pub dy: i32,
}

impl MoveCommand {
    pub open spec fn wf(self) -> bool {
        -DIRECTION_UNIT <= self.dx <= DIRECTION_UNIT && -DIRECTION_UNIT <= self.dy <= DIRECTION_UNIT
    }

    /// Builds a command, or `None` where an axis exceeds one unit.
    pub fn new(dx: i32, dy: i32) -> (r: Option<MoveCommand>)
        ensures
            r == (if -DIRECTION_UNIT <= dx <= DIRECTION_UNIT && -DIRECTION_UNIT <= dy
                <= DIRECTION_UNIT {
                Some(MoveCommand { dx, dy })
            } else {
                None
            }),
    {
        if -DIRECTION_UNIT <= dx && dx <= DIRECTION_UNIT && -DIRECTION_UNIT <= dy && dy
            <= DIRECTION_UNIT {
            Some(MoveCommand { dx, dy })
        } else {
            None
        }
    }
}

/// Displacement along one axis: `direction * elapsed * speed`, in millionths
/// (thousandths of a unit times milliseconds).
pub open spec fn axis_shift(d: i32, elapsed_ms: u32) -> int {
    d * elapsed_ms * MOVE_SPEED
}

/// `a + d`, held to the range of `i64`.
pub open spec fn clamped_add(a: int, d: int) -> i64 {
    if a + d > i64::MAX {
        i64::MAX
    } else if a + d < i64::MIN {
        i64::MIN
    } else {
        (a + d) as i64
    }
}

/// The position after moving by `cmd` for `elapsed_ms` milliseconds.
pub open spec fn moved(p: Position, cmd: MoveCommand, elapsed_ms: u32) -> Position {
    Position {
        x: clamped_add(p.x as int, axis_shift(cmd.dx, elapsed_ms)),
        y: clamped_add(p.y as int, axis_shift(cmd.dy, elapsed_ms)),
    }
}

proof fn lemma_shift_bounds(d: i32, elapsed_ms: u32)
    requires
        -DIRECTION_UNIT <= d <= DIRECTION_UNIT,
    ensures
        -1000 * 0xffff_ffff * 200 <= axis_shift(d, elapsed_ms) <= 1000 * 0xffff_ffff * 200,
{
    assert(-1000 * 0xffff_ffff * 200 <= d * elapsed_ms * 200 <= 1000 * 0xffff_ffff * 200)
        by (nonlinear_arith)
        requires
            -1000 <= d <= 1000,
            0 <= elapsed_ms <= 0xffff_ffff,
    ;
}

fn shift_axis(a: i64, d: i32, elapsed_ms: u32) -> (r: i64)
    requires
        -DIRECTION_UNIT <= d <= DIRECTION_UNIT,
    ensures
        r == clamped_add(a as int, axis_shift(d, elapsed_ms)),
{
    proof {
        lemma_shift_bounds(d, elapsed_ms);
    }
    let shift: i64 = (d as i64) * (elapsed_ms as i64) * MOVE_SPEED;
    if shift > 0 && a > i64::MAX - shift {
        i64::MAX
    } else if shift < 0 && a < i64::MIN - shift {
        i64::MIN
    } else {
        a + shift
    }
}

/// Integrates one command over `elapsed_ms`: the new position is the old one
/// plus `direction * elapsed * speed` per axis, held to the range of `i64`.
pub fn integrate(p: Position, cmd: MoveCommand, elapsed_ms: u32) -> (r: Position)
    requires
        cmd.wf(),
    ensures
        r == moved(p, cmd, elapsed_ms),
{
    Position { x: shift_axis(p.x, cmd.dx, elapsed_ms), y: shift_axis(p.y, cmd.dy, elapsed_ms) }
}

/// A zero direction leaves the position where it is.
pub proof fn lemma_zero_direction_is_noop(p: Position, elapsed_ms: u32)
    ensures
        moved(p, MoveCommand { dx: 0, dy: 0 }, elapsed_ms) == p,
{
}

} // verus!
