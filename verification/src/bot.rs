//! The scripted bot: a producer of commands identical in shape to a
//! human player's, driven by a randomized wander timer.

use vstd::prelude::*;

use crate::geom::{Vec2, DT_LIMIT, SCALE};
use crate::player::Input;
use crate::simulation::{apply_input, spec_apply_input};
use crate::state::State;
use crate::store::Id;
use crate::thing::TIMER_LIMIT;

verus! {

/// One bot: the entity it steers, its wander timer, and its held
/// direction.
pub struct Bot {
    pub thing_id: Id,
    /// Remaining think time before the direction changes (milliseconds).
    pub think: i64,
    /// Held direction in milli-units per axis.
    pub dir: Vec2,
}

impl Bot {
    pub open spec fn wf(self) -> bool {
        0 <= self.think <= TIMER_LIMIT && self.dir.in_limit(SCALE)
    }

    pub fn new(thing_id: Id) -> (b: Bot)
        ensures
            b.thing_id == thing_id,
            b.think == 0,
            b.dir == (Vec2 { x: 0, y: 0 }),
            b.wf(),
    {
        Bot { thing_id, think: 0, dir: Vec2 { x: 0, y: 0 } }
    }

    /// One bot tick: when the wander timer runs out, either pick a fresh
    /// random direction or stop; then issue a movement command for this
    /// slice through the same command path a player uses.
    pub fn tick(&mut self, state: &mut State, dt_ms: u64)
        requires
            old(self).wf(),
            old(state).wf(),
            dt_ms <= DT_LIMIT,
        ensures
            final(self).wf(),
            final(self).thing_id == old(self).thing_id,
            final(state).wf(),
            forall|x: crate::store::Id|
                #![trigger crate::simulation::spec_dead_id(final(state)@.things, x)]
                crate::simulation::spec_dead_id(old(state)@.things, x)
                    ==> crate::simulation::spec_dead_id(final(state)@.things, x),
            exists|input: Input|
                (#[trigger] input.wf()) && input.thing_id == Some(old(self).thing_id)
                    && final(state)@ == spec_apply_input(old(state)@, input),
    {
        if self.think <= 0 {
            if self.dir.x == 0 && self.dir.y == 0 {
                let rx: u16 = rand::random::<u16>();
                let ry: u16 = rand::random::<u16>();
                self.dir = Vec2 {
                    x: (rx % 2001) as i64 - 1000,
                    y: (ry % 2001) as i64 - 1000,
                };
            } else {
                self.dir = Vec2 { x: 0, y: 0 };
            }
            let rt: u16 = rand::random::<u16>();
            self.think = 500 + (rt % 500) as i64;
        }
        proof {
            crate::simulation::lemma_mul_small(self.dir.x as int, dt_ms as int);
            crate::simulation::lemma_mul_small(self.dir.y as int, dt_ms as int);
        }
        let mx: i64 = {
            let prod: i64 = self.dir.x * (dt_ms as i64);
            if prod >= 0 {
                prod / 1000
            } else {
                -((-prod) / 1000)
            }
        };
        let my: i64 = {
            let prod: i64 = self.dir.y * (dt_ms as i64);
            if prod >= 0 {
                prod / 1000
            } else {
                -((-prod) / 1000)
            }
        };
        let input = Input {
            timestamp_ms: 0,
            thing_id: Some(self.thing_id),
            movement_dir: self.dir,
            movement: Vec2 { x: mx, y: my },
            ability_trigger: false,
            ability_target: Vec2 { x: 0, y: 0 },
        };
        proof {
            assert(input.wf());
        }
        let ghost pre = state@;
        apply_input(state, &input, true);
        proof {
            crate::simulation::lemma_apply_input_evolves(pre, input);
            assert forall|x: crate::store::Id|
                crate::simulation::spec_dead_id(pre.things, x)
                    implies #[trigger] crate::simulation::spec_dead_id(state@.things, x) by {
                crate::simulation::lemma_evolve_preserves_dead(pre.things, state@.things, x);
            }
        }
        self.think = if self.think > dt_ms as i64 {
            self.think - dt_ms as i64
        } else {
            0
        };
    }
}

} // verus!
