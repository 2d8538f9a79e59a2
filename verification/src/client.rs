//! Client-side context: authoritative state intake, prediction,
//! reconciliation, and render-time interpolation.

use vstd::prelude::*;

use crate::geom::{clamp_i64, div_trunc, spec_clamp, Vec2, COORD_LIMIT, DT_LIMIT, SCALE};
use crate::player::Input;
use crate::simulation::{apply_input, apply_inputs, spec_apply_input, spec_apply_inputs};
use crate::state::{Event, State, StateHistory, HISTORY_LIMIT};
use crate::store::Id;
use crate::state::{SlotView, StateView};
use crate::thing::{PlayerView, Thing, ThingView};

verus! {

/// Hard cap on locally buffered, unacknowledged commands; beyond it the
/// oldest command is dropped rather than growing without bound.
pub const PENDING_CAP: usize = 256;

/// One client's whole replication context: the authoritative-so-far
/// state, the snapshot history for interpolation, and the local command
/// buffer for reconciliation.
pub struct Client {
    pub current: State,
    pub history: StateHistory,
    pub input: Input,
    pub input_history: Vec<Input>,
    pub server_tick_rate: u8,
    pub since_last_snapshot_ms: u64,
    pub lerp_alpha_milli: i64,
}

/// The commands newer than the server's acknowledgement: exactly those
/// a reconciling client replays.
pub open spec fn spec_kept(cmds: Seq<Input>, t: u64) -> Seq<Input>
    decreases cmds.len(),
{
    if cmds.len() == 0 {
        Seq::empty()
    } else {
        let rest = spec_kept(cmds.drop_first(), t);
        if cmds[0].timestamp_ms > t {
            seq![cmds[0]] + rest
        } else {
            rest
        }
    }
}

/// The interpolation fraction, in thousandths: elapsed time over the
/// tick interval, clamped into `[0, 1]`.
pub open spec fn spec_alpha(since_ms: u64, tick_rate: u8) -> int {
    if since_ms * tick_rate > 1000 {
        1000int
    } else {
        (since_ms * tick_rate) as int
    }
}

/// The command one local frame issues: the held direction clamped to a
/// unit vector's bounds, scaled by the elapsed slice; the aim clamped
/// into the world.
pub open spec fn spec_frame_command(
    prev: Input,
    now_ms: u64,
    dt_ms: u64,
    movement_dir: Vec2,
    ability_trigger: bool,
    ability_target: Vec2,
) -> Input {
    let dx = spec_clamp(movement_dir.x as int, -SCALE as int, SCALE as int) as i64;
    let dy = spec_clamp(movement_dir.y as int, -SCALE as int, SCALE as int) as i64;
    Input {
        timestamp_ms: now_ms,
        thing_id: prev.thing_id,
        movement_dir: Vec2 { x: dx, y: dy },
        movement: Vec2 {
            x: div_trunc(dx as int * dt_ms as int, 1000) as i64,
            y: div_trunc(dy as int * dt_ms as int, 1000) as i64,
        },
        ability_trigger,
        ability_target: Vec2 {
            x: spec_clamp(ability_target.x as int, -COORD_LIMIT as int, COORD_LIMIT as int) as i64,
            y: spec_clamp(ability_target.y as int, -COORD_LIMIT as int, COORD_LIMIT as int) as i64,
        },
    }
}

/// The controlled entity, if it resolves to a player, flagged as not
/// interpolated (it is already predicted at full rate).
pub open spec fn spec_mark_no_interp(sv: StateView, tid: Option<Id>) -> StateView {
    match tid {
        None => sv,
        Some(id) => {
            if id.slot < sv.things.len() && sv.things[id.slot as int].generation == id.generation
                && sv.things[id.slot as int].value is Some {
                match sv.things[id.slot as int].value->Some_0 {
                    ThingView::Player(p) => StateView {
                        things: sv.things.update(
                            id.slot as int,
                            SlotView {
                                generation: id.generation,
                                value: Some(
                                    ThingView::Player(PlayerView { no_interpolation: true, ..p }),
                                ),
                            },
                        ),
                        ..sv
                    },
                    ThingView::Projectile(_) => sv,
                }
            } else {
                sv
            }
        },
    }
}

/// The interpolation clock after one slice, saturating at the top.
pub open spec fn spec_since(since_ms: u64, dt_ms: u64) -> u64 {
    if since_ms <= u64::MAX - dt_ms {
        (since_ms + dt_ms) as u64
    } else {
        u64::MAX
    }
}

impl Client {
    pub open spec fn wf(self) -> bool {
        &&& self.current.wf()
        &&& self.input_history@.len() <= PENDING_CAP
        &&& forall|k: int| 0 <= k < self.input_history@.len() ==> (#[trigger] self.input_history@[k]).wf()
        &&& 0 <= self.lerp_alpha_milli <= 1000
    }

    pub fn new() -> (c: Client)
        ensures
            c.wf(),
            c.current@ == crate::state::initial_state_view(),
            c.input_history@.len() == 0,
    {
        Client {
            current: State::new(),
            history: StateHistory::new(),
            input: Input::default(),
            input_history: Vec::new(),
            server_tick_rate: 20,
            since_last_snapshot_ms: 0,
            lerp_alpha_milli: 0,
        }
    }

    /// Interpolation bounds: for any elapsed time the computed fraction
    /// lies in `[0, 1]` (here: thousandths).
    pub fn compute_alpha(since_ms: u64, tick_rate: u8) -> (a: i64)
        ensures
            0 <= a <= 1000,
            a == spec_alpha(since_ms, tick_rate),
    {
        if since_ms >= 1000 {
            if tick_rate >= 1 {
                proof {
                    assert((since_ms as int) * (tick_rate as int) >= since_ms as int)
                        by (nonlinear_arith)
                        requires
                            tick_rate as int >= 1,
                            since_ms as int >= 0,
                    ;
                }
                1000
            } else {
                0
            }
        } else {
            proof {
                assert((since_ms as int) * (tick_rate as int) <= 999 * 255) by (nonlinear_arith)
                    requires
                        0 <= since_ms as int <= 999,
                        0 <= tick_rate as int <= 255,
                ;
            }
            let p: u64 = since_ms * (tick_rate as u64);
            if p > 1000 {
                1000
            } else {
                p as i64
            }
        }
    }

    /// The server told this client which entity it controls and how fast
    /// the server ticks.
    pub fn recv_player_info(&mut self, thing_id: Option<Id>, tick_rate: u8)
        requires
            old(self).wf(),
        ensures
            final(self).wf(),
            final(self).input.thing_id == thing_id,
            final(self).server_tick_rate == tick_rate,
    {
        self.input.thing_id = thing_id;
        self.server_tick_rate = tick_rate;
    }

    /// Reconciliation: adopt the authoritative state, remember it as the
    /// newest history entry, discard every buffered command the server
    /// has already processed, and replay the rest in order. The result
    /// is the same fold of the same commands the server computes, so
    /// both sides converge.
    pub fn recv_snapshot_full(&mut self, state: State, input_timestamp_ms: u64)
        requires
            old(self).wf(),
            state.wf(),
        ensures
            final(self).wf(),
            final(self).input_history@ == spec_kept(old(self).input_history@, input_timestamp_ms),
            final(self).current@ == spec_apply_inputs(
                state@,
                spec_kept(old(self).input_history@, input_timestamp_ms),
            ),
            final(self).since_last_snapshot_ms == 0,
            // the snapshot is remembered and is the newest history entry
            final(self).history.views() == if old(self).history.views().len() <= HISTORY_LIMIT {
                old(self).history.views().push(state@)
            } else {
                old(self).history.views().drop_first().push(state@)
            },
            final(self).history.views().len() > 0 && final(self).history.views().last() == state@,
            final(self).history.default_view() == old(self).history.default_view(),
            final(self).input == old(self).input,
            final(self).server_tick_rate == old(self).server_tick_rate,
            final(self).lerp_alpha_milli == old(self).lerp_alpha_milli,
    {
        self.since_last_snapshot_ms = 0;
        self.history.remember(state.duplicate());
        let ghost buffered = self.input_history@;
        let mut kept: Vec<Input> = Vec::new();
        let n: usize = self.input_history.len();
        proof {
            assert(buffered.skip(0) =~= buffered);
        }
        let mut k: usize = 0;
        while k < n
            invariant
                n == buffered.len(),
                self.input_history@ == buffered,
                k <= n,
                forall|j: int| 0 <= j < buffered.len() ==> (#[trigger] buffered[j]).wf(),
                forall|j: int| 0 <= j < kept@.len() ==> (#[trigger] kept@[j]).wf(),
                kept@.len() <= k,
                kept@ + spec_kept(buffered.skip(k as int), input_timestamp_ms) == spec_kept(
                    buffered,
                    input_timestamp_ms,
                ),
            decreases n - k,
        {
            proof {
                assert(buffered.skip(k as int)[0] == buffered[k as int]);
                assert(buffered.skip(k as int).drop_first() =~= buffered.skip(k as int + 1));
            }
            let cmd = self.input_history[k];
            if cmd.timestamp_ms > input_timestamp_ms {
                let ghost kept_before = kept@;
                kept.push(cmd);
                proof {
                    assert(kept@ + spec_kept(buffered.skip(k as int + 1), input_timestamp_ms)
                        =~= kept_before + (seq![buffered[k as int]] + spec_kept(
                        buffered.skip(k as int + 1),
                        input_timestamp_ms,
                    )));
                }
            }
            k += 1;
        }
        proof {
            assert(buffered.skip(n as int) =~= Seq::<Input>::empty());
            assert(kept@ =~= spec_kept(buffered, input_timestamp_ms));
        }
        self.current = state;
        apply_inputs(&mut self.current, &kept);
        self.input_history = kept;
    }

    /// The state this client holds deltas against: the newest remembered
    /// authoritative state, or the default state when none exists yet.
    pub open spec fn delta_base(self) -> crate::state::StateView {
        if self.history.views().len() > 0 {
            self.history.views().last()
        } else {
            self.history.default_view()
        }
    }

    /// A delta snapshot arrived: reconstruct the state it carries
    /// against the last remembered authoritative state, and handle it
    /// exactly like a full snapshot of that state. Success holds exactly
    /// when the delta applies against the held base and the applied
    /// bytes decode to one well-formed state; on failure the client is
    /// unchanged and the caller must request a full snapshot instead.
    pub fn recv_snapshot_delta(&mut self, delta: &Vec<u8>, input_timestamp_ms: u64) -> (ok: bool)
        requires
            old(self).wf(),
        ensures
            final(self).wf(),
            !ok ==> *final(self) == *old(self),
            ok <==> ({
                let applied = crate::codec::spec_apply(
                    crate::codec::spec_enc_state(old(self).delta_base()),
                    delta@,
                );
                &&& applied is Some
                &&& exists|sv: crate::state::StateView|
                    sv.wf() && crate::codec::spec_dec_state(applied->Some_0, 0) == Some(
                        (sv, applied->Some_0.len() as int),
                    )
            }),
            ok ==> exists|sv: crate::state::StateView|
                {
                    let applied = crate::codec::spec_apply(
                        crate::codec::spec_enc_state(old(self).delta_base()),
                        delta@,
                    );
                    &&& applied is Some
                    &&& crate::codec::spec_dec_state(applied->Some_0, 0) == Some(
                        (sv, applied->Some_0.len() as int),
                    )
                    &&& #[trigger] sv.wf()
                    // handled exactly like a full snapshot carrying sv
                    &&& final(self).input_history@ == spec_kept(
                        old(self).input_history@,
                        input_timestamp_ms,
                    )
                    &&& final(self).current@ == spec_apply_inputs(
                        sv,
                        spec_kept(old(self).input_history@, input_timestamp_ms),
                    )
                    &&& final(self).since_last_snapshot_ms == 0
                    &&& final(self).history.views() == (if old(self).history.views().len()
                        <= HISTORY_LIMIT {
                        old(self).history.views().push(sv)
                    } else {
                        old(self).history.views().drop_first().push(sv)
                    })
                    &&& final(self).history.views().len() > 0
                    &&& final(self).history.views().last() == sv
                },
    {
        let st = match State::from_delta(self.history.current(), delta) {
            Some(s) => s,
            None => {
                return false;
            },
        };
        if st.check_wf() {
            self.recv_snapshot_full(st, input_timestamp_ms);
            true
        } else {
            false
        }
    }

    /// One local frame: build this slice's command from the held input,
    /// buffer it for reconciliation (bounded), apply it speculatively for
    /// responsiveness, keep the controlled entity out of interpolation,
    /// advance the interpolation fraction, and hand back the command (to
    /// transmit) together with the tick's drained events.
    pub fn update(
        &mut self,
        now_ms: u64,
        dt_ms: u64,
        movement_dir: Vec2,
        ability_trigger: bool,
        ability_target: Vec2,
    ) -> (out: (Input, Vec<Event>))
        requires
            old(self).wf(),
            dt_ms <= DT_LIMIT,
        ensures
            final(self).wf(),
            out.0.wf(),
            // the transmitted command is this slice's clamped input
            out.0 == spec_frame_command(
                old(self).input,
                now_ms,
                dt_ms,
                movement_dir,
                ability_trigger,
                ability_target,
            ),
            final(self).input == out.0,
            // buffered for reconciliation, oldest dropped at the cap
            final(self).input_history@ == (if old(self).input_history@.len() < PENDING_CAP {
                old(self).input_history@.push(out.0)
            } else {
                old(self).input_history@.drop_first().push(out.0)
            }),
            final(self).input_history@.len() <= PENDING_CAP,
            // the interpolation clock and fraction advance
            final(self).since_last_snapshot_ms == spec_since(
                old(self).since_last_snapshot_ms,
                dt_ms,
            ),
            final(self).lerp_alpha_milli == spec_alpha(
                spec_since(old(self).since_last_snapshot_ms, dt_ms),
                old(self).server_tick_rate,
            ),
            0 <= final(self).lerp_alpha_milli <= 1000,
            // the command is applied speculatively, the controlled entity
            // is kept out of interpolation, and the tick's events are
            // drained exactly
            final(self).current@ == (StateView {
                events: Seq::empty(),
                ..spec_mark_no_interp(
                    spec_apply_input(old(self).current@, out.0),
                    out.0.thing_id,
                )
            }),
            out.1@ == spec_apply_input(old(self).current@, out.0).events,
            final(self).history == old(self).history,
            final(self).server_tick_rate == old(self).server_tick_rate,
    {
        self.since_last_snapshot_ms = if self.since_last_snapshot_ms <= u64::MAX - dt_ms {
            self.since_last_snapshot_ms + dt_ms
        } else {
            u64::MAX
        };
        self.lerp_alpha_milli = Self::compute_alpha(
            self.since_last_snapshot_ms,
            self.server_tick_rate,
        );
        let dx: i64 = clamp_i64(movement_dir.x, -SCALE, SCALE);
        let dy: i64 = clamp_i64(movement_dir.y, -SCALE, SCALE);
        proof {
            crate::simulation::lemma_mul_small(dx as int, dt_ms as int);
            crate::simulation::lemma_mul_small(dy as int, dt_ms as int);
        }
        let mx: i64 = {
            let prod: i64 = dx * (dt_ms as i64);
            if prod >= 0 {
                prod / 1000
            } else {
                -((-prod) / 1000)
            }
        };
        let my: i64 = {
            let prod: i64 = dy * (dt_ms as i64);
            if prod >= 0 {
                prod / 1000
            } else {
                -((-prod) / 1000)
            }
        };
        let cmd = Input {
            timestamp_ms: now_ms,
            thing_id: self.input.thing_id,
            movement_dir: Vec2 { x: dx, y: dy },
            movement: Vec2 { x: mx, y: my },
            ability_trigger,
            ability_target: Vec2 {
                x: clamp_i64(ability_target.x, -COORD_LIMIT, COORD_LIMIT),
                y: clamp_i64(ability_target.y, -COORD_LIMIT, COORD_LIMIT),
            },
        };
        self.input = cmd;
        if self.input_history.len() >= PENDING_CAP {
            self.input_history.remove(0);
        }
        self.input_history.push(cmd);
        apply_input(&mut self.current, &cmd, false);
        let ghost applied = self.current@;
        match cmd.thing_id {
            Some(id) => {
                if self.current.things.contains(id) {
                    let ghost before = self.current@.things;
                    let t = self.current.things.get_mut(id);
                    match t {
                        Thing::Player(p) => {
                            p.no_interpolation = true;
                        },
                        Thing::Projectile(_) => {},
                    }
                    proof {
                        assert forall|j: int|
                            0 <= j < self.current@.things.len() implies match (
                        #[trigger] self.current@.things[j]).value {
                            Some(x) => x.wf(),
                            None => true,
                        } by {
                            if j != id.slot {
                                assert(self.current@.things[j] == before[j]);
                            } else {
                                assert(match before[j].value {
                                    Some(x) => x.wf(),
                                    None => true,
                                });
                            }
                        }
                    }
                }
            },
            None => {},
        }
        proof {
            assert(self.current@.things =~= spec_mark_no_interp(applied, cmd.thing_id).things);
            assert(self.current@ == spec_mark_no_interp(applied, cmd.thing_id));
        }
        let mut ev: Vec<Event> = Vec::new();
        core::mem::swap(&mut ev, &mut self.current.events);
        proof {
            assert(self.current@.events =~= Seq::<Event>::empty());
            assert(self.current@ == (StateView {
                events: Seq::empty(),
                ..spec_mark_no_interp(applied, cmd.thing_id)
            }));
        }
        (cmd, ev)
    }
}

} // verus!
