//! The state and the actions of a reinforcement-learning agent that drives a train: how an
//! action changes the train's speed, the distance it covers and its share of the maximum speed.
use vstd::prelude::*;

verus! {

/// An action of a railway object that moves along the track.
#[derive(Clone, Copy, Debug, PartialEq, Eq, Hash, Structural)]
pub enum RailMovableAction {
    /// Stop at once.
    Stop,
    /// Accelerate forward, in mm/s².
    AccelerateForward { acceleration: i32 },
    /// Accelerate backward (brake), in mm/s².
    AccelerateBackward { acceleration: i32 },
}

impl Default for RailMovableAction {
    fn default() -> (r: Self)
        ensures
            r == RailMovableAction::Stop,
    {
        RailMovableAction::Stop
    }
}

/// The state of a train agent.
#[derive(Clone, Copy, Debug, PartialEq, Eq, Hash, Structural)]
pub struct TrainAgentState {
    /// The distance in millimetres covered in the last step.
    pub delta_distance_mm: i32,
    /// The current speed in mm/s.
    pub current_speed_mm_s: i32,
    /// The current speed as a percentage of the maximum speed.
    pub max_speed_percentage: i32,
}

impl Default for TrainAgentState {
    fn default() -> (r: Self)
        ensures
            r.delta_distance_mm == 0,
            r.current_speed_mm_s == 0,
            r.max_speed_percentage == 0,
    {
        TrainAgentState { delta_distance_mm: 0, current_speed_mm_s: 0, max_speed_percentage: 0 }
    }
}

/// The greatest acceleration an action asks for, in mm/s².
pub const MAX_ACCELERATION: i32 = 1000;

/// The step between the accelerations of two actions, in mm/s².
pub const ACCELERATION_STEP: i32 = 20;

/// The duration of one step, in milliseconds.
pub const TIME_DELTA_MS: i32 = 1000;

/// The number of actions: stopping, and forward and backward at each acceleration step.
pub const ACTION_COUNT: usize = 101;

/// The actions an agent can choose from, in order: `Stop`, then forward and backward at each
/// acceleration from one step up to the greatest.
pub open spec fn action_list() -> Seq<RailMovableAction> {
    Seq::new(
        ACTION_COUNT as nat,
        |k: int|
            if k == 0 {
                RailMovableAction::Stop
            } else if k % 2 == 1 {
                RailMovableAction::AccelerateForward { acceleration: (((k + 1) / 2) * 20) as i32 }
            } else {
                RailMovableAction::AccelerateBackward { acceleration: ((k / 2) * 20) as i32 }
            },
    )
}

/// The absolute value of `x`.
pub open spec fn abs(x: int) -> int {
    if x < 0 {
        -x
    } else {
        x
    }
}

/// A speed as a percentage of the maximum speed, the fraction rounded toward zero and taken
/// without its sign; the greatest `i32` for a positive speed where the maximum is 0.
pub open spec fn speed_percentage(speed: i32, max_speed: i32) -> i32 {
    if max_speed == 0 {
        if speed == 0 {
            0
        } else {
            i32::MAX
        }
    } else {
        (abs(speed as int) * 100 / abs(max_speed as int)) as i32
    }
}

/// The speed after `action`, by the acceleration it asks for over one step.
pub open spec fn speed_after(speed: i32, action: RailMovableAction) -> int {
    match action {
        RailMovableAction::Stop => 0,
        RailMovableAction::AccelerateForward { acceleration } => speed + acceleration * TIME_DELTA_MS / 1000,
        RailMovableAction::AccelerateBackward { acceleration } => speed - acceleration * TIME_DELTA_MS / 1000,
    }
}

/// `action` can be taken at `speed`: the acceleration and the new speed, scaled to one step,
/// fit in 32 bits, and a negative speed is not measured against a maximum of 0.
pub open spec fn action_in_domain(speed: i32, max_speed: i32, action: RailMovableAction) -> bool {
    let accelerations_fit = match action {
        RailMovableAction::Stop => true,
        RailMovableAction::AccelerateForward { acceleration } => i32::MIN <= acceleration * TIME_DELTA_MS <= i32::MAX,
        RailMovableAction::AccelerateBackward { acceleration } => i32::MIN <= acceleration * TIME_DELTA_MS <= i32::MAX,
    };
    let s = speed_after(speed, action);
    &&& accelerations_fit
    &&& i32::MIN <= s * TIME_DELTA_MS <= i32::MAX
    &&& !(max_speed == 0 && s < 0)
}

/// The state after `action`: the new speed; for an acceleration, the distance covered in one
/// step at that speed (a stop leaves the distance as it was); and the new share of the maximum
/// speed.
pub open spec fn state_after(state: TrainAgentState, max_speed: i32, action: RailMovableAction) -> TrainAgentState {
    let s = speed_after(state.current_speed_mm_s, action) as i32;
    TrainAgentState {
        delta_distance_mm: match action {
            RailMovableAction::Stop => state.delta_distance_mm,
            _ => (s * TIME_DELTA_MS / 1000) as i32,
        },
        current_speed_mm_s: s,
        max_speed_percentage: speed_percentage(s, max_speed),
    }
}

/// `rand::random::<usize>()`: a random number. Nothing is stated of it, as it depends on
/// chance alone.
#[verifier::external_body]
fn random_usize() -> usize {
    rand::random::<usize>()
}

impl TrainAgentState {
    /// Returns the actions an agent can take: `Stop`, then accelerating forward and backward at
    /// each multiple of 20 mm/s² up to 1000 mm/s².
    pub fn actions(&self) -> (r: Vec<RailMovableAction>)
        ensures
            r@ == action_list(),
    {
        let mut actions: Vec<RailMovableAction> = Vec::new();
        actions.push(RailMovableAction::Stop);
        let mut step: i32 = 1;
        while step <= MAX_ACCELERATION / ACCELERATION_STEP
            invariant
                1 <= step <= 51,
                actions@.len() == 2 * step - 1,
                forall|k: int| 0 <= k < actions@.len() ==> #[trigger] actions@[k] == action_list()[k],
            decreases 51 - step,
        {
            actions.push(RailMovableAction::AccelerateForward { acceleration: step * ACCELERATION_STEP });
            actions.push(RailMovableAction::AccelerateBackward { acceleration: step * ACCELERATION_STEP });
            proof {
                let n = 2 * step - 1;
                assert(action_list()[n] == RailMovableAction::AccelerateForward { acceleration: (step * 20) as i32 });
                assert(action_list()[n + 1] == RailMovableAction::AccelerateBackward { acceleration: (step * 20) as i32 });
            }
            step = step + 1;
        }
        assert(actions@ =~= action_list());
        actions
    }

    /// Returns the action at position `r` (modulo their number) of the actions.
    pub fn action_at(&self, r: usize) -> (a: RailMovableAction)
        ensures
            a == action_list()[(r % ACTION_COUNT) as int],
    {
        let actions = self.actions();
        actions[r % actions.len()]
    }

    /// Returns one of the actions, picked at random.
    pub fn random_action(&self) -> (a: RailMovableAction)
        ensures
            exists|k: int| 0 <= k < ACTION_COUNT && a == #[trigger] action_list()[k],
    {
        let r = random_usize();
        self.action_at(r)
    }
}

/// A reinforcement-learning agent that drives a train.
#[derive(Clone, Copy, Debug)]
pub struct TrainAgentRL {
    /// The current state.
    pub state: TrainAgentState,
    /// The greatest speed the train can reach, in mm/s.
    pub max_speed_mm_s: i32,
}

impl Default for TrainAgentRL {
    fn default() -> (r: Self)
        ensures
            r.state == (TrainAgentState { delta_distance_mm: 0, current_speed_mm_s: 0, max_speed_percentage: 0 }),
            r.max_speed_mm_s == 0,
    {
        TrainAgentRL { state: TrainAgentState::default(), max_speed_mm_s: 0 }
    }
}

impl TrainAgentRL {
    /// The current state.
    pub fn current_state(&self) -> (r: &TrainAgentState)
        ensures
            *r == self.state,
    {
        &self.state
    }

    /// Whether `action` can be taken in the current state (see `action_in_domain`).
    pub fn can_take(&self, action: &RailMovableAction) -> (r: bool)
        ensures
            r == action_in_domain(self.state.current_speed_mm_s, self.max_speed_mm_s, *action),
    {
        let speed = self.state.current_speed_mm_s as i64;
        let step: i64 = match action {
            RailMovableAction::Stop => 0,
            RailMovableAction::AccelerateForward { acceleration } => *acceleration as i64,
            RailMovableAction::AccelerateBackward { acceleration } => -(*acceleration as i64),
        };
        let accelerations_fit = match action {
            RailMovableAction::Stop => true,
            _ => -2147483 <= step && step <= 2147483,
        };
        if !accelerations_fit {
            return false;
        }
        let new_speed: i64 = match action {
            RailMovableAction::Stop => 0,
            _ => speed + step,
        };
        -2147483 <= new_speed && new_speed <= 2147483 && !(self.max_speed_mm_s == 0 && new_speed < 0)
    }

    /// Takes `action` for one step: a stop sets the speed to 0; an acceleration changes the
    /// speed by the acceleration over the step and sets the distance covered to what that speed
    /// covers in the step; then the share of the maximum speed is measured anew.
    pub fn take_action(&mut self, action: &RailMovableAction)
        requires
            action_in_domain(old(self).state.current_speed_mm_s, old(self).max_speed_mm_s, *action),
        ensures
            final(self).state == state_after(old(self).state, old(self).max_speed_mm_s, *action),
            final(self).max_speed_mm_s == old(self).max_speed_mm_s,
    {
        match action {
            RailMovableAction::Stop => {
                self.state.current_speed_mm_s = 0;
            },
            RailMovableAction::AccelerateForward { acceleration } => {
                self.state.current_speed_mm_s = self.state.current_speed_mm_s + *acceleration * TIME_DELTA_MS / 1000;
                self.state.delta_distance_mm = self.state.current_speed_mm_s * TIME_DELTA_MS / 1000;
            },
            RailMovableAction::AccelerateBackward { acceleration } => {
                self.state.current_speed_mm_s = self.state.current_speed_mm_s - *acceleration * TIME_DELTA_MS / 1000;
                self.state.delta_distance_mm = self.state.current_speed_mm_s * TIME_DELTA_MS / 1000;
            },
        }
        self.state.max_speed_percentage = percentage_of(self.state.current_speed_mm_s, self.max_speed_mm_s);
    }

    /// Picks an action at random, takes it, and returns it.
    pub fn pick_random_action(&mut self) -> (a: RailMovableAction)
        requires
            forall|k: int|
                0 <= k < ACTION_COUNT ==> action_in_domain(
                    old(self).state.current_speed_mm_s,
                    old(self).max_speed_mm_s,
                    #[trigger] action_list()[k],
                ),
        ensures
            exists|k: int| 0 <= k < ACTION_COUNT && a == #[trigger] action_list()[k],
            final(self).state == state_after(old(self).state, old(self).max_speed_mm_s, a),
            final(self).max_speed_mm_s == old(self).max_speed_mm_s,
    {
        let action = self.current_state().random_action();
        self.take_action(&action);
        action
    }

    /// Takes in what was observed of the train, keeping its current speed (and so its share
    /// of the maximum speed) as it is: where a distance is given, it becomes the distance
    /// covered.
    pub fn observe_state(&mut self, delta_distance_mm: Option<i32>)
        ensures
            final(self).max_speed_mm_s == old(self).max_speed_mm_s,
            final(self).state == (TrainAgentState {
                delta_distance_mm: match delta_distance_mm {
                    Some(d) => d,
                    None => old(self).state.delta_distance_mm,
                },
                ..old(self).state
            }),
    {
        let mut state = self.state;
        if let Some(delta) = delta_distance_mm {
            state.delta_distance_mm = delta;
        }
        self.state = state;
    }
}

/// The share of the maximum speed, as `speed_percentage` states it.
fn percentage_of(speed: i32, max_speed: i32) -> (r: i32)
    requires
        i32::MIN <= speed * TIME_DELTA_MS <= i32::MAX,
        !(max_speed == 0 && speed < 0),
    ensures
        r == speed_percentage(speed, max_speed),
{
    if max_speed == 0 {
        if speed == 0 {
            0
        } else {
            i32::MAX
        }
    } else {
        let s: i64 = if speed < 0 { -(speed as i64) } else { speed as i64 };
        let m: i64 = if max_speed < 0 { -(max_speed as i64) } else { max_speed as i64 };
        let q: i64 = s * 100 / m;
        proof {
            assert(q <= s * 100) by (nonlinear_arith)
                requires
                    q == (s * 100) as int / (m as int),
                    s >= 0,
                    m >= 1,
            ;
        }
        q as i32
    }
}

/// Accelerating forward and then backward by the same acceleration brings the train back to the
/// speed it had, and it then covers in a step the distance that speed covers.
pub proof fn lemma_forward_backward_restores_speed(state: TrainAgentState, max_speed: i32, acceleration: i32)
    requires
        action_in_domain(state.current_speed_mm_s, max_speed, RailMovableAction::AccelerateForward { acceleration }),
        action_in_domain(
            state_after(state, max_speed, RailMovableAction::AccelerateForward { acceleration }).current_speed_mm_s,
            max_speed,
            RailMovableAction::AccelerateBackward { acceleration },
        ),
    ensures
        ({
            let after = state_after(
                state_after(state, max_speed, RailMovableAction::AccelerateForward { acceleration }),
                max_speed,
                RailMovableAction::AccelerateBackward { acceleration },
            );
            &&& after.current_speed_mm_s == state.current_speed_mm_s
            &&& after.delta_distance_mm == state.current_speed_mm_s
            &&& after.max_speed_percentage == speed_percentage(state.current_speed_mm_s, max_speed)
        }),
{
}

/// A stop leaves the train at rest, at no share of its maximum speed, whatever its state.
pub proof fn lemma_stop_rests(state: TrainAgentState, max_speed: i32)
    ensures
        state_after(state, max_speed, RailMovableAction::Stop).current_speed_mm_s == 0,
        state_after(state, max_speed, RailMovableAction::Stop).max_speed_percentage == 0,
        state_after(state, max_speed, RailMovableAction::Stop).delta_distance_mm == state.delta_distance_mm,
{
}

} // verus!
