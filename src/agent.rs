//! The pursuit rules of the monster: it chases the player it sees, keeps
//! going for a while after losing sight, and then gives up.
use vstd::prelude::*;
use crate::geom::{abs, along, diff, diff_spec, distance, distance_spec, in_world, step_along, Point};
use crate::grid::VoxelGrid;
use crate::physics::MAX_DT;
use crate::ray::{can_see, sees_spec};

verus! {

/// The player is chased when seen closer than this, in thousandths.
pub const CHASE_RANGE: i64 = 15_000;

/// The agent turns toward a player closer than this, in thousandths.
pub const FACE_RANGE: i64 = 20_000;

/// How long the chase goes on after sight is lost, in milliseconds.
pub const CHASE_MEMORY: i64 = 3000;

/// Speed of a chase, in thousandths per second.
pub const AGENT_SPEED: i64 = 3500;

/// Speed while following a player out of sight: seven tenths of a chase.
pub const LINGER_SPEED: i64 = 2450;

/// The memory of a pursuit.
#[derive(Clone, Copy, Debug, PartialEq, Eq, Structural)]
pub struct Pursuit {
    /// Milliseconds of chase left after sight is lost.
    pub chase_timer: i64,
    pub spotted_player: bool,
}

/// How fast the agent moves toward the player this tick.
#[derive(Clone, Copy, Debug, PartialEq, Eq, Structural)]
pub enum Pace {
    Still,
    Linger,
    Chase,
}

/// The outcome of one tick of the pursuit rules.
#[derive(Clone, Copy, Debug, PartialEq, Eq, Structural)]
pub struct PursuitStep {
    pub next: Pursuit,
    pub pace: Pace,
    /// The player has just been spotted: a one-shot signal for effects.
    pub spotted_signal: bool,
}

impl Pursuit {
    /// A timer that is never negative and never above the chase memory.
    pub open spec fn wf(&self) -> bool {
        0 <= self.chase_timer <= CHASE_MEMORY
    }

    /// Neither chasing nor remembering the player.
    pub open spec fn is_idle(&self) -> bool {
        !self.spotted_player && self.chase_timer == 0
    }

    /// The state of an agent that has not seen the player yet.
    pub fn idle() -> (r: Pursuit)
        ensures
            r.wf(),
            r.is_idle(),
    {
        Pursuit { chase_timer: 0, spotted_player: false }
    }

    /// The rules of one tick, given the distance to the player, whether the
    /// player is in sight, and the elapsed milliseconds.
    pub open spec fn step_spec(self, dist: int, sees: bool, dt: int) -> PursuitStep {
        if sees && dist < CHASE_RANGE {
            PursuitStep {
                next: Pursuit { chase_timer: CHASE_MEMORY, spotted_player: true },
                pace: Pace::Chase,
                spotted_signal: !self.spotted_player,
            }
        } else if self.chase_timer > 0 {
            let t = self.chase_timer - dt;
            PursuitStep {
                next: if t <= 0 {
                    Pursuit { chase_timer: 0, spotted_player: false }
                } else {
                    Pursuit { chase_timer: t as i64, spotted_player: self.spotted_player }
                },
                pace: Pace::Linger,
                spotted_signal: false,
            }
        } else {
            PursuitStep {
                next: Pursuit { chase_timer: self.chase_timer, spotted_player: false },
                pace: Pace::Still,
                spotted_signal: false,
            }
        }
    }

    /// One tick of the pursuit rules.
    pub fn step(&self, dist: i64, sees: bool, dt: i64) -> (r: PursuitStep)
        requires
            self.wf(),
            dt >= 0,
        ensures
            r == self.step_spec(dist as int, sees, dt as int),
            r.next.wf(),
    {
        if sees && dist < CHASE_RANGE {
            PursuitStep {
                next: Pursuit { chase_timer: CHASE_MEMORY, spotted_player: true },
                pace: Pace::Chase,
                spotted_signal: !self.spotted_player,
            }
        } else if self.chase_timer > 0 {
            let t = self.chase_timer - dt;
            PursuitStep {
                next: if t <= 0 {
                    Pursuit { chase_timer: 0, spotted_player: false }
                } else {
                    Pursuit { chase_timer: t, spotted_player: self.spotted_player }
                },
                pace: Pace::Linger,
                spotted_signal: false,
            }
        } else {
            PursuitStep {
                next: Pursuit { chase_timer: self.chase_timer, spotted_player: false },
                pace: Pace::Still,
                spotted_signal: false,
            }
        }
    }
}

/// The total of a sequence of time steps.
pub open spec fn total(dts: Seq<int>) -> int
    decreases dts.len(),
{
    if dts.len() == 0 {
        0
    } else {
        dts[0] + total(dts.drop_first())
    }
}

/// The state after a sequence of ticks in which the player is never seen.
pub open spec fn run_blind(s: Pursuit, dts: Seq<int>) -> Pursuit
    decreases dts.len(),
{
    if dts.len() == 0 {
        s
    } else {
        run_blind(s.step_spec(0, false, dts[0]).next, dts.drop_first())
    }
}

/// A total of positive steps is not negative, and is positive unless there are none.
pub proof fn lemma_total_nonneg(dts: Seq<int>)
    requires
        forall|i: int| 0 <= i < dts.len() ==> #[trigger] dts[i] > 0,
    ensures
        total(dts) >= 0,
        dts.len() > 0 ==> total(dts) > 0,
    decreases dts.len(),
{
    if dts.len() > 0 {
        let rest = dts.drop_first();
        assert forall|i: int| 0 <= i < rest.len() implies #[trigger] rest[i] > 0 by {
            assert(rest[i] == dts[i + 1]);
        }
        lemma_total_nonneg(rest);
    }
}

/// An idle agent that never sees the player stays idle.
pub proof fn lemma_idle_stays(s: Pursuit, dts: Seq<int>)
    requires
        s.is_idle(),
    ensures
        run_blind(s, dts).is_idle(),
    decreases dts.len(),
{
    if dts.len() > 0 {
        lemma_idle_stays(s.step_spec(0, false, dts[0]).next, dts.drop_first());
    }
}

/// With sight lost, a remembering agent is idle once the time passed
/// reaches its timer, whether the last tick ends on the timer or beyond it;
/// before that it keeps the player spotted and its timer counts down.
pub proof fn lemma_blind_run(s: Pursuit, dts: Seq<int>)
    requires
        s.wf(),
        s.chase_timer > 0,
        s.spotted_player,
        forall|i: int| 0 <= i < dts.len() ==> #[trigger] dts[i] > 0,
    ensures
        total(dts) >= s.chase_timer ==> run_blind(s, dts).is_idle(),
        total(dts) < s.chase_timer ==> run_blind(s, dts).spotted_player && run_blind(s, dts).chase_timer
            == s.chase_timer - total(dts),
    decreases dts.len(),
{
    if dts.len() > 0 {
        let rest = dts.drop_first();
        assert forall|i: int| 0 <= i < rest.len() implies #[trigger] rest[i] > 0 by {
            assert(rest[i] == dts[i + 1]);
        }
        lemma_total_nonneg(rest);
        let next = s.step_spec(0, false, dts[0]).next;
        if s.chase_timer - dts[0] <= 0 {
            lemma_idle_stays(next, rest);
        } else {
            lemma_blind_run(next, rest);
        }
    }
}

/// Starting from a full timer with sight lost, the agent is idle as soon as
/// the chase memory has passed, and not before.
pub proof fn lemma_chase_timer_decay(dts: Seq<int>)
    requires
        forall|i: int| 0 <= i < dts.len() ==> #[trigger] dts[i] > 0,
    ensures
        ({
            let s = Pursuit { chase_timer: CHASE_MEMORY, spotted_player: true };
            &&& total(dts) >= CHASE_MEMORY ==> run_blind(s, dts).is_idle()
            &&& total(dts) < CHASE_MEMORY ==> run_blind(s, dts).spotted_player
        }),
{
    lemma_blind_run(Pursuit { chase_timer: CHASE_MEMORY, spotted_player: true }, dts);
}

/// What one tick of the agent produces.
#[derive(Clone, Copy, Debug, PartialEq, Eq, Structural)]
pub struct AgentTick {
    pub position: Point,
    pub pursuit: Pursuit,
    /// The player has just been spotted.
    pub spotted_signal: bool,
    /// The player is close enough for the agent to turn toward it.
    pub face_player: bool,
}

/// Thousandths of a block per second at a pace.
pub open spec fn pace_speed(p: Pace) -> int {
    match p {
        Pace::Still => 0,
        Pace::Linger => LINGER_SPEED as int,
        Pace::Chase => AGENT_SPEED as int,
    }
}

/// The agent's position after moving `k` thousandths toward the player.
pub open spec fn toward(a: Point, b: Point, k: int) -> Point {
    let len = distance_spec(a, b);
    let d = diff_spec(a, b);
    if len == 0 || k == 0 {
        a
    } else {
        Point {
            x: along(a.x as int, d.x as int, k, len) as i64,
            y: along(a.y as int, d.y as int, k, len) as i64,
            z: along(a.z as int, d.z as int, k, len) as i64,
        }
    }
}

/// One tick of the agent at `a` pursuing the player at `b`: the pursuit
/// rules decide from the distance and the line of sight, and the agent moves
/// toward the player at the pace they choose.
pub open spec fn agent_tick_spec(
    m: Map<crate::grid::Coordinate, crate::grid::BlockType>,
    a: Point,
    s: Pursuit,
    b: Point,
    dt: int,
) -> AgentTick {
    let dist = distance_spec(a, b);
    let st = s.step_spec(dist, sees_spec(m, a, b), dt);
    AgentTick {
        position: toward(a, b, (pace_speed(st.pace) * dt) / 1000),
        pursuit: st.next,
        spotted_signal: st.spotted_signal,
        face_player: dist < FACE_RANGE,
    }
}

/// Moves the agent `k` thousandths toward the player.
fn move_toward(a: Point, b: Point, k: i64) -> (r: Point)
    requires
        in_world(a),
        in_world(b),
        0 <= k <= AGENT_SPEED * 1000,
    ensures
        r == toward(a, b, k as int),
{
    let len = distance(a, b);
    if len == 0 || k == 0 {
        return a;
    }
    let d = diff(a, b);
    proof {
        crate::geom::lemma_component_within_length(d, len as int);
        assert(abs(d.x * k) <= k * len) by (nonlinear_arith)
            requires abs(d.x as int) <= len, k >= 0;
        assert(abs(d.y * k) <= k * len) by (nonlinear_arith)
            requires abs(d.y as int) <= len, k >= 0;
        assert(abs(d.z * k) <= k * len) by (nonlinear_arith)
            requires abs(d.z as int) <= len, k >= 0;
        crate::geom::lemma_div_within(d.x * k, len as int, k as int);
        crate::geom::lemma_div_within(d.y * k, len as int, k as int);
        crate::geom::lemma_div_within(d.z * k, len as int, k as int);
    }
    Point { x: step_along(a.x, d.x, k, len), y: step_along(a.y, d.y, k, len), z: step_along(a.z, d.z, k, len) }
}

/// One tick of the agent at `a` in pursuit state `s`, with the player at
/// `b` and `dt` milliseconds elapsed.
pub fn agent_tick(grid: &VoxelGrid, a: Point, s: Pursuit, b: Point, dt: i64) -> (r: AgentTick)
    requires
        grid.wf(),
        s.wf(),
        in_world(a),
        in_world(b),
        0 <= dt <= MAX_DT,
    ensures
        r == agent_tick_spec(grid.blocks(), a, s, b, dt as int),
        r.pursuit.wf(),
{
    let dist = distance(a, b);
    let sees = can_see(grid, a, b);
    let st = s.step(dist, sees, dt);
    let speed: i64 = match st.pace {
        Pace::Still => 0,
        Pace::Linger => LINGER_SPEED,
        Pace::Chase => AGENT_SPEED,
    };
    assert(0 <= speed * dt <= AGENT_SPEED * 1_000_000) by (nonlinear_arith)
        requires 0 <= speed <= AGENT_SPEED, 0 <= dt <= 1_000_000;
    let k = speed * dt / 1000;
    let position = move_toward(a, b, k);
    AgentTick { position, pursuit: st.next, spotted_signal: st.spotted_signal, face_player: dist < FACE_RANGE }
}

/// An idle agent with a block on its line of sight to a player within
/// chase range does not start a chase.
pub proof fn lemma_hidden_player_not_chased(
    m: Map<crate::grid::Coordinate, crate::grid::BlockType>,
    a: Point,
    b: Point,
    dt: int,
    i: int,
)
    requires
        1 <= i < crate::ray::vision_steps(distance_spec(a, b)),
        m.contains_key(crate::geom::cell_of_spec(crate::ray::vision_point(a, b, distance_spec(a, b), i))),
        distance_spec(a, b) < CHASE_RANGE,
    ensures
        !sees_spec(m, a, b),
        agent_tick_spec(m, a, Pursuit { chase_timer: 0, spotted_player: false }, b, dt).pursuit.is_idle(),
        agent_tick_spec(m, a, Pursuit { chase_timer: 0, spotted_player: false }, b, dt).position == a,
{
    crate::ray::lemma_block_on_line_hides(m, a, b, i);
}

} // verus!
