//! The simulation: configuration, the agent table, and the per-tick stages.
//!
//! A tick runs its stages in a fixed order: rebuild the per-kind spatial
//! indexes, steer (pursuit toward the nearest prey, flight from the nearest
//! predator in vision), integrate velocities, resolve conversions on
//! contact, and contain agents at the arena boundary.

use crate::agent::Agent;
use crate::geom::{abs_i, dist_sq, dist_sq_val, isqrt, step_toward, toward_disp, Vec2,
    COORD_LIMIT, GEOM_LIMIT, SPEED_LIMIT};
use crate::index::{entry_dsq, entry_pos, first_min_idx, first_min_within_idx, has_within,
    is_first_min, is_first_min_within, lemma_first_min_within_pin, Entry, SpatialIndex};
use crate::kind::Mock;
use crate::resources::CollidablePairs;
use crate::rng::rng_range;
use vstd::arithmetic::div_mod::{lemma_div_is_ordered, lemma_div_multiples_vanish,
    lemma_div_pos_is_pos, lemma_fundamental_div_mod_converse};
use vstd::prelude::*;

verus! {

/// Milliseconds per second: velocity integration scales by `dt / TICK_UNIT`.
pub const TICK_UNIT: i64 = 1000;

/// The tunable parameters of a simulation, fixed at startup.
pub struct SimConfig {
    /// Arena half-width: agent x-coordinates stay within it.
    pub half_width: i64,
    /// Arena half-height: agent y-coordinates stay within it.
    pub half_height: i64,
    /// How far inside the boundary containment re-seats an agent, so the
    /// boundary does not re-trigger on the very next tick.
    pub gap: i64,
    /// Half the visual size of an agent; inner contact means two agents
    /// within twice this distance.
    pub sprite_size: i64,
    /// Distance a pursuing agent covers per `TICK_UNIT` of simulated
    /// time: a steering pass covers `base_speed * dt / TICK_UNIT`. At
    /// least 2, so a full-unit step always resolves to movement.
    pub base_speed: i64,
    /// Flight is this many times faster than pursuit (at least twice), so
    /// evasion wins over pursuit.
    pub flee_gain: i64,
    /// Smallest random part of a spawned agent's vision radius.
    pub vision_lo: i64,
    /// Largest random part of a spawned agent's vision radius.
    pub vision_hi: i64,
}

impl SimConfig {
    /// The bounds under which every stage's arithmetic stays in range.
    pub open spec fn wf(self) -> bool {
        &&& 0 < self.gap < self.half_width <= COORD_LIMIT
        &&& self.gap < self.half_height <= COORD_LIMIT
        &&& 0 <= self.sprite_size
        &&& 2 * self.sprite_size <= COORD_LIMIT
        &&& 2 <= self.base_speed <= SPEED_LIMIT
        &&& 2 <= self.flee_gain
        &&& 0 < self.base_speed * self.flee_gain <= SPEED_LIMIT
        &&& 0 <= self.vision_lo <= self.vision_hi
        &&& self.sprite_size + self.vision_hi <= COORD_LIMIT
    }

    /// The squared inner-contact threshold: twice the sprite size, squared.
    pub open spec fn contact_sq(self) -> int {
        (2 * self.sprite_size) * (2 * self.sprite_size)
    }

    /// The distance a fleeing agent covers per steering pass.
    pub open spec fn flee_step(self) -> int {
        self.base_speed * self.flee_gain
    }
}

/// An agent whose coordinates a stage may still work on mid-tick, before
/// containment has run: in geometry range, with bounded velocity and vision.
pub open spec fn mid_ok(a: Agent) -> bool {
    &&& a.pos.in_range(GEOM_LIMIT as int)
    &&& -SPEED_LIMIT <= a.vel.x <= SPEED_LIMIT
    &&& -SPEED_LIMIT <= a.vel.y <= SPEED_LIMIT
    &&& 0 <= a.vision <= COORD_LIMIT
}

/// An agent at rest between ticks: inside the arena proper.
pub open spec fn agent_ok(cfg: SimConfig, a: Agent) -> bool {
    &&& -cfg.half_width <= a.pos.x <= cfg.half_width
    &&& -cfg.half_height <= a.pos.y <= cfg.half_height
    &&& -SPEED_LIMIT <= a.vel.x <= SPEED_LIMIT
    &&& -SPEED_LIMIT <= a.vel.y <= SPEED_LIMIT
    &&& 0 <= a.vision <= COORD_LIMIT
}

/// The simulation state: the configuration and the agent table. An agent's
/// identity is its index in the table; conversion mutates kind in place and
/// never moves or removes agents.
pub struct Simulation {
    pub config: SimConfig,
    pub agents: Vec<Agent>,
}

/// The per-kind index entries a rebuild derives from the agent table: one
/// `(x, y, identity)` entry per agent of kind `k`, in identity order.
pub open spec fn entries_of(s: Seq<Agent>, k: Mock) -> Seq<Entry>
    decreases s.len(),
{
    if s.len() == 0 {
        Seq::empty()
    } else {
        let pre = entries_of(s.drop_last(), k);
        let a = s.last();
        if a.kind == k {
            pre.push((a.pos.x, a.pos.y, (s.len() - 1) as usize))
        } else {
            pre
        }
    }
}

/// Every entry of `entries_of` points back at an agent of kind `k` and
/// carries that agent's position.
pub proof fn lemma_entries_of_valid(s: Seq<Agent>, k: Mock)
    requires
        s.len() <= usize::MAX,
    ensures
        forall|j: int|
            0 <= j < entries_of(s, k).len() ==> {
                let e = #[trigger] entries_of(s, k)[j];
                &&& 0 <= e.2 < s.len()
                &&& s[e.2 as int].kind == k
                &&& e.0 == s[e.2 as int].pos.x
                &&& e.1 == s[e.2 as int].pos.y
            },
    decreases s.len(),
{
    if s.len() > 0 {
        let pre = entries_of(s.drop_last(), k);
        lemma_entries_of_valid(s.drop_last(), k);
        assert(forall|i: int| 0 <= i < s.len() - 1 ==> s.drop_last()[i] == s[i]);
        let es = entries_of(s, k);
        assert forall|j: int| 0 <= j < es.len() implies {
            let e = #[trigger] es[j];
            &&& 0 <= e.2 < s.len()
            &&& s[e.2 as int].kind == k
            &&& e.0 == s[e.2 as int].pos.x
            &&& e.1 == s[e.2 as int].pos.y
        } by {
            if s.last().kind == k {
                assert(es == pre.push((s.last().pos.x, s.last().pos.y, (s.len() - 1) as usize)));
                if j < pre.len() {
                    assert(es[j] == pre[j]);
                } else {
                    assert(es[j] == (s.last().pos.x, s.last().pos.y, (s.len() - 1) as usize));
                    assert((s.len() - 1) as usize as int == s.len() - 1);
                    assert(s[s.len() - 1] == s.last());
                }
            } else {
                assert(es == pre);
            }
        }
    }
}

impl Simulation {
    /// Every agent is mid-tick sound.
    pub open spec fn mid_wf(self) -> bool {
        &&& self.config.wf()
        &&& forall|i: int| 0 <= i < self.agents@.len() ==> mid_ok(#[trigger] self.agents@[i])
    }

    /// Every agent is at rest inside the arena: the between-ticks invariant.
    pub open spec fn wf(self) -> bool {
        &&& self.config.wf()
        &&& forall|i: int|
            0 <= i < self.agents@.len() ==> agent_ok(self.config, #[trigger] self.agents@[i])
    }

    /// An empty simulation with the given configuration.
    pub fn new(config: SimConfig) -> (s: Simulation)
        requires
            config.wf(),
        ensures
            s.config == config,
            s.agents@.len() == 0,
            s.wf(),
    {
        Simulation { config, agents: Vec::new() }
    }

    /// Rebuilds the spatial index for kind `k` from the current agent
    /// positions: the snapshot later queries answer against.
    pub fn rebuild_index(&self, k: Mock) -> (idx: SpatialIndex)
        requires
            self.mid_wf(),
        ensures
            idx.entries@ == entries_of(self.agents@, k),
            idx.wf(),
    {
        let mut entries: Vec<Entry> = Vec::new();
        let mut i: usize = 0;
        proof {
            assert(self.agents@.subrange(0, 0) =~= Seq::<Agent>::empty());
        }
        while i < self.agents.len()
            invariant
                self.mid_wf(),
                0 <= i <= self.agents@.len(),
                entries@ == entries_of(self.agents@.subrange(0, i as int), k),
                forall|j: int|
                    0 <= j < entries@.len() ==> entry_pos(#[trigger] entries@[j]).in_range(
                        GEOM_LIMIT as int,
                    ),
            decreases self.agents@.len() - i,
        {
            let a = self.agents[i];
            proof {
                let pre = self.agents@.subrange(0, i as int);
                let post = self.agents@.subrange(0, i as int + 1);
                assert(post.drop_last() =~= pre);
                assert(post.last() == self.agents@[i as int]);
            }
            if a.kind == k {
                entries.push((a.pos.x, a.pos.y, i));
            }
            i = i + 1;
        }
        proof {
            assert(self.agents@.subrange(0, self.agents@.len() as int) =~= self.agents@);
        }
        SpatialIndex { entries }
    }
}

/// `a` displaced by `(dx, dy)`, all other state kept.
pub open spec fn moved_by(a: Agent, dx: int, dy: int) -> Agent {
    Agent {
        kind: a.kind,
        vel: a.vel,
        vision: a.vision,
        pos: Vec2 { x: (a.pos.x + dx) as i64, y: (a.pos.y + dy) as i64 },
    }
}

/// One pursuit pass for a single agent against the prey index snapshot `s`:
/// move a step of `base_speed * dt / TICK_UNIT` toward the nearest prey,
/// except when there is no prey at all or the nearest one is already within
/// inner contact, where conversion is the resolver's business and the agent
/// stays put.
#[verifier::opaque]
pub open spec fn pursuit_update(a: Agent, s: Seq<Entry>, cfg: SimConfig, dt: int) -> Agent {
    if s.len() == 0 {
        a
    } else {
        let tp = entry_pos(s[first_min_idx(s, a.pos)]);
        if dist_sq(a.pos, tp) <= cfg.contact_sq() {
            a
        } else {
            let d = toward_disp(a.pos, tp, scale_vel(cfg.base_speed as int, dt));
            moved_by(a, d.0, d.1)
        }
    }
}

/// One flight pass for a single agent against the predator index snapshot
/// `s`: move a step of `flee_step` directly away from the nearest predator
/// within the agent's vision radius, or stay put when none is in range.
#[verifier::opaque]
pub open spec fn flee_update(a: Agent, s: Seq<Entry>, cfg: SimConfig) -> Agent {
    let rad2 = a.vision * a.vision;
    if !has_within(s, a.pos, rad2) {
        a
    } else {
        let d = toward_disp(
            entry_pos(s[first_min_within_idx(s, a.pos, rad2)]),
            a.pos,
            cfg.flee_step(),
        );
        moved_by(a, d.0, d.1)
    }
}

/// Pursuit makes progress: when the steering step for `dt` resolves to at
/// least two fixed-point units and the nearest prey stands beyond inner
/// contact, the pursuit pass strictly moves the agent toward that prey —
/// the displacement has a positive dot product with the direction to the
/// prey, so truncation can zero one component but never stall the agent.
/// Below two units an integer step can truncate to nothing, which is why
/// the resolution bound is part of the claim.
pub proof fn lemma_pursuit_moves(a: Agent, s: Seq<Entry>, cfg: SimConfig, dt: int)
    requires
        cfg.wf(),
        0 <= dt <= TICK_UNIT,
        a.pos.in_range(GEOM_LIMIT as int),
        forall|j: int| 0 <= j < s.len() ==> entry_pos(#[trigger] s[j]).in_range(GEOM_LIMIT as int),
        s.len() > 0,
        dist_sq(a.pos, entry_pos(s[first_min_idx(s, a.pos)])) > cfg.contact_sq(),
        2 <= scale_vel(cfg.base_speed as int, dt),
    ensures
        ({
            let b = pursuit_update(a, s, cfg, dt);
            let tp = entry_pos(s[first_min_idx(s, a.pos)]);
            &&& (b.pos.x - a.pos.x) * (tp.x - a.pos.x) + (b.pos.y - a.pos.y) * (tp.y - a.pos.y)
                > 0
            &&& b.pos != a.pos
        }),
{
    reveal(pursuit_update);
    crate::index::lemma_first_min_exists(s, a.pos);
    let tp = entry_pos(s[first_min_idx(s, a.pos)]);
    let step = scale_vel(cfg.base_speed as int, dt);
    let base = cfg.base_speed as int;
    assert(base * dt >= 0 && base * dt <= base * (TICK_UNIT as int)) by (nonlinear_arith)
        requires
            base >= 0 && 0 <= dt <= TICK_UNIT as int,
    ;
    lemma_div_is_ordered(base * dt, base * (TICK_UNIT as int), TICK_UNIT as int);
    lemma_div_multiples_vanish(base, TICK_UNIT as int);
    assert(base * (TICK_UNIT as int) == (TICK_UNIT as int) * base) by (nonlinear_arith);
    assert(step <= base);
    assert(cfg.contact_sq() >= 0) by (nonlinear_arith)
        requires
            cfg.contact_sq() == (2 * cfg.sprite_size) * (2 * cfg.sprite_size),
    ;
    crate::geom::lemma_toward_disp_advances(a.pos, tp, step);
    let d = toward_disp(a.pos, tp, step);
    let b = pursuit_update(a, s, cfg, dt);
    assert(b == moved_by(a, d.0, d.1));
    assert(b.pos.x == a.pos.x + d.0 && b.pos.y == a.pos.y + d.1);
    if d.0 == 0 && d.1 == 0 {
        assert(d.0 * (tp.x - a.pos.x) + d.1 * (tp.y - a.pos.y) == 0) by (nonlinear_arith)
            requires
                d.0 == 0 && d.1 == 0,
        ;
    }
}

impl Simulation {
    /// The pursuit stage for kind `k`: every agent of that kind takes one
    /// pursuit pass against the prey index snapshot `idx`, covering
    /// `base_speed * dt / TICK_UNIT` toward its nearest prey; all other
    /// agents are untouched. Positions move by at most `base_speed` per
    /// axis.
    #[verifier::spinoff_prover]
    pub fn handle_targets(&mut self, k: Mock, idx: &SpatialIndex, dt: i64)
        requires
            old(self).mid_wf(),
            idx.wf(),
            0 <= dt <= TICK_UNIT,
        ensures
            final(self).config == old(self).config,
            final(self).agents@.len() == old(self).agents@.len(),
            forall|i: int|
                0 <= i < old(self).agents@.len() ==> final(self).agents@[i] == (if old(
                    self,
                ).agents@[i].kind == k {
                    pursuit_update(
                        #[trigger] old(self).agents@[i],
                        idx.entries@,
                        old(self).config,
                        dt as int,
                    )
                } else {
                    old(self).agents@[i]
                }),
            forall|i: int|
                0 <= i < old(self).agents@.len() ==> {
                    let a = #[trigger] old(self).agents@[i];
                    let b = final(self).agents@[i];
                    &&& b.kind == a.kind
                    &&& b.vel == a.vel
                    &&& b.vision == a.vision
                    &&& abs_i(b.pos.x - a.pos.x) <= old(self).config.base_speed
                    &&& abs_i(b.pos.y - a.pos.y) <= old(self).config.base_speed
                },
    {
        let ghost orig = self.agents@;
        let ghost cfg = self.config;
        let contact = 2 * self.config.sprite_size;
        proof {
            assert(contact * contact <= 0x4_0000_0000_0000) by (nonlinear_arith)
                requires
                    0 <= contact <= 0x20_0000,
            ;
        }
        let contact2 = contact * contact;
        let step = scaled_vel_val(self.config.base_speed, dt);
        let mut i: usize = 0;
        while i < self.agents.len()
            invariant
                self.config == cfg,
                cfg.wf(),
                idx.wf(),
                contact == 2 * cfg.sprite_size,
                contact2 == cfg.contact_sq(),
                step == scale_vel(cfg.base_speed as int, dt as int),
                0 <= step <= cfg.base_speed,
                self.agents@.len() == orig.len(),
                0 <= i <= orig.len(),
                forall|j: int| i <= j < orig.len() ==> self.agents@[j] == orig[j],
                forall|j: int| 0 <= j < orig.len() ==> mid_ok(#[trigger] orig[j]),
                forall|j: int|
                    0 <= j < i ==> self.agents@[j] == (if orig[j].kind == k {
                        pursuit_update(#[trigger] orig[j], idx.entries@, cfg, dt as int)
                    } else {
                        orig[j]
                    }),
                forall|j: int|
                    0 <= j < i ==> {
                        let b = #[trigger] self.agents@[j];
                        &&& b.kind == orig[j].kind
                        &&& b.vel == orig[j].vel
                        &&& b.vision == orig[j].vision
                        &&& abs_i(b.pos.x - orig[j].pos.x) <= cfg.base_speed
                        &&& abs_i(b.pos.y - orig[j].pos.y) <= cfg.base_speed
                    },
            decreases orig.len() - i,
        {
            let a = self.agents[i];
            proof {
                assert(self.agents@[i as int] == orig[i as int]);
                assert(mid_ok(orig[i as int]));
            }
            if a.kind == k {
                match idx.query_nearest(a.pos) {
                    None => {
                        proof {
                            reveal(pursuit_update);
                            assert(pursuit_update(a, idx.entries@, cfg, dt as int) == a);
                        }
                    },
                    Some((tp, _tid)) => {
                        let d2 = dist_sq_val(a.pos, tp);
                        if d2 <= contact2 {
                            // Within inner contact: conversion is the
                            // resolver's business; no pursuit movement.
                            proof {
                                reveal(pursuit_update);
                                assert(pursuit_update(a, idx.entries@, cfg, dt as int) == a);
                            }
                        } else {
                            let d = step_toward(a.pos, tp, step);
                            let mut b = a;
                            b.pos.x = a.pos.x + d.x;
                            b.pos.y = a.pos.y + d.y;
                            self.agents[i] = b;
                            proof {
                                reveal(pursuit_update);
                                assert(self.agents@[i as int] == pursuit_update(
                                    a,
                                    idx.entries@,
                                    cfg,
                                    dt as int,
                                ));
                            }
                        }
                    },
                }
            }
            i = i + 1;
        }
    }

    /// The flight stage for kind `k`: every agent of that kind takes one
    /// flight pass against the predator index snapshot `idx`; all other
    /// agents are untouched. Positions move by at most `flee_step` per
    /// axis. The flight step is the fixed multiple `flee_gain * base_speed`
    /// per pass, independent of elapsed time, so it always exceeds the
    /// time-scaled pursuit step: evasion keeps priority.
    #[verifier::spinoff_prover]
    pub fn handle_enemies(&mut self, k: Mock, idx: &SpatialIndex)
        requires
            old(self).mid_wf(),
            idx.wf(),
        ensures
            final(self).config == old(self).config,
            final(self).agents@.len() == old(self).agents@.len(),
            forall|i: int|
                0 <= i < old(self).agents@.len() ==> final(self).agents@[i] == (if old(
                    self,
                ).agents@[i].kind == k {
                    flee_update(#[trigger] old(self).agents@[i], idx.entries@, old(self).config)
                } else {
                    old(self).agents@[i]
                }),
            forall|i: int|
                0 <= i < old(self).agents@.len() ==> {
                    let a = #[trigger] old(self).agents@[i];
                    let b = final(self).agents@[i];
                    &&& b.kind == a.kind
                    &&& b.vel == a.vel
                    &&& b.vision == a.vision
                    &&& abs_i(b.pos.x - a.pos.x) <= old(self).config.flee_step()
                    &&& abs_i(b.pos.y - a.pos.y) <= old(self).config.flee_step()
                },
    {
        let ghost orig = self.agents@;
        let ghost cfg = self.config;
        let ghost s = idx.entries@;
        let flee = self.config.base_speed * self.config.flee_gain;
        let mut i: usize = 0;
        while i < self.agents.len()
            invariant
                self.config == cfg,
                cfg.wf(),
                idx.wf(),
                s == idx.entries@,
                flee == cfg.flee_step(),
                0 < flee <= SPEED_LIMIT,
                self.agents@.len() == orig.len(),
                0 <= i <= orig.len(),
                forall|j: int| i <= j < orig.len() ==> self.agents@[j] == orig[j],
                forall|j: int| 0 <= j < orig.len() ==> mid_ok(#[trigger] orig[j]),
                forall|j: int|
                    0 <= j < i ==> self.agents@[j] == (if orig[j].kind == k {
                        flee_update(#[trigger] orig[j], s, cfg)
                    } else {
                        orig[j]
                    }),
                forall|j: int|
                    0 <= j < i ==> {
                        let b = #[trigger] self.agents@[j];
                        &&& b.kind == orig[j].kind
                        &&& b.vel == orig[j].vel
                        &&& b.vision == orig[j].vision
                        &&& abs_i(b.pos.x - orig[j].pos.x) <= cfg.flee_step()
                        &&& abs_i(b.pos.y - orig[j].pos.y) <= cfg.flee_step()
                    },
            decreases orig.len() - i,
        {
            let a = self.agents[i];
            proof {
                assert(self.agents@[i as int] == orig[i as int]);
                assert(mid_ok(orig[i as int]));
                assert(a.vision * a.vision <= 0x4_0000_0000_0000 && a.vision * a.vision >= 0)
                    by (nonlinear_arith)
                    requires
                        0 <= a.vision <= 0x20_0000,
                ;
            }
            if a.kind == k {
                let rad2 = a.vision * a.vision;
                let mut found = false;
                let mut best: usize = 0;
                let mut best_d: i64 = 0;
                let mut t: usize = 0;
                while t < idx.entries.len()
                    invariant
                        idx.wf(),
                        s == idx.entries@,
                        a.pos.in_range(GEOM_LIMIT as int),
                        0 <= rad2,
                        0 <= t <= s.len(),
                        !found ==> forall|kk: int|
                            0 <= kk < t ==> entry_dsq(a.pos, #[trigger] s[kk]) > rad2,
                        found ==> {
                            &&& 0 <= (best as int) < t
                            &&& entry_dsq(a.pos, s[best as int]) <= rad2
                            &&& best_d == entry_dsq(a.pos, s[best as int])
                            &&& forall|kk: int|
                                0 <= kk < t && entry_dsq(a.pos, #[trigger] s[kk]) <= rad2
                                    ==> entry_dsq(a.pos, s[kk]) >= best_d
                            &&& forall|kk: int|
                                0 <= kk < best && entry_dsq(a.pos, #[trigger] s[kk]) <= rad2
                                    ==> entry_dsq(a.pos, s[kk]) > best_d
                        },
                    decreases s.len() - t,
                {
                    let e = idx.entries[t];
                    let d = dist_sq_val(a.pos, Vec2 { x: e.0, y: e.1 });
                    if d <= rad2 {
                        if !found {
                            found = true;
                            best = t;
                            best_d = d;
                        } else if d < best_d {
                            best = t;
                            best_d = d;
                        }
                    }
                    t = t + 1;
                }
                if found {
                    proof {
                        assert(is_first_min_within(s, a.pos, rad2 as int, best as int));
                        lemma_first_min_within_pin(s, a.pos, rad2 as int, best as int);
                    }
                    let e = idx.entries[best];
                    let dvec = step_toward(Vec2 { x: e.0, y: e.1 }, a.pos, flee);
                    let mut b = a;
                    b.pos.x = a.pos.x + dvec.x;
                    b.pos.y = a.pos.y + dvec.y;
                    self.agents[i] = b;
                    proof {
                        reveal(flee_update);
                        assert(self.agents@[i as int] == flee_update(a, s, cfg));
                    }
                } else {
                    proof {
                        reveal(flee_update);
                        assert(!has_within(s, a.pos, rad2 as int));
                        assert(flee_update(a, s, cfg) == a);
                    }
                }
            }
            i = i + 1;
        }
    }
}

/// One velocity-integration step of a single coordinate: `v * dt` scaled
/// down by `TICK_UNIT`, truncated toward zero.
pub open spec fn scale_vel(v: int, dt: int) -> int {
    if v >= 0 {
        v * dt / (TICK_UNIT as int)
    } else {
        -((-v) * dt / (TICK_UNIT as int))
    }
}

/// Computes `scale_vel`; the step never exceeds the velocity itself in
/// magnitude because `dt` never exceeds `TICK_UNIT`.
fn scaled_vel_val(v: i64, dt: i64) -> (r: i64)
    requires
        -SPEED_LIMIT <= v <= SPEED_LIMIT,
        0 <= dt <= TICK_UNIT,
    ensures
        r == scale_vel(v as int, dt as int),
        abs_i(r as int) <= abs_i(v as int),
        0 <= v ==> 0 <= r,
{
    let mag: i64 = if v >= 0 {
        v
    } else {
        -v
    };
    proof {
        assert(mag * dt >= 0 && mag * dt <= 0x10_0000 * 1000) by (nonlinear_arith)
            requires
                0 <= mag <= 0x10_0000 && 0 <= dt <= 1000,
        ;
        assert(mag * dt <= mag * 1000) by (nonlinear_arith)
            requires
                0 <= mag && dt <= 1000,
        ;
        lemma_div_pos_is_pos(mag as int * dt as int, 1000);
        lemma_div_is_ordered(mag as int * dt as int, mag as int * 1000, 1000);
        lemma_div_multiples_vanish(mag as int, 1000);
        assert(mag as int * 1000 == 1000 * mag as int);
        assert(mag as int * dt as int / 1000 <= mag as int);
    }
    let q = (mag * dt) / TICK_UNIT;
    if v >= 0 {
        q
    } else {
        -q
    }
}

/// An agent with predator kind `s[j].kind.spec_predator()` stands within
/// inner contact of agent `j`: the condition under which the resolver
/// converts `j`.
#[verifier::opaque]
pub open spec fn aggressor_exists(s: Seq<Agent>, j: int, contact2: int) -> bool {
    exists|i: int|
        0 <= i < s.len() && i != j && (#[trigger] s[i]).kind == s[j].kind.spec_predator()
            && dist_sq(s[i].pos, s[j].pos) <= contact2
}

/// The kind agent `j` holds after one resolver pass over the snapshot `s`:
/// converted to its predator's kind exactly when a predator stands within
/// inner contact, unchanged otherwise.
#[verifier::opaque]
pub open spec fn resolved_kind(s: Seq<Agent>, j: int, contact2: int) -> Mock {
    if aggressor_exists(s, j, contact2) {
        s[j].kind.spec_predator()
    } else {
        s[j].kind
    }
}

impl Simulation {
    /// The velocity-integration stage: every agent's position advances by
    /// `vel * dt / TICK_UNIT`, component-wise.
    #[verifier::spinoff_prover]
    pub fn update_positions(&mut self, dt: i64)
        requires
            old(self).mid_wf(),
            0 <= dt <= TICK_UNIT,
        ensures
            final(self).config == old(self).config,
            final(self).agents@.len() == old(self).agents@.len(),
            forall|i: int|
                0 <= i < old(self).agents@.len() ==> final(self).agents@[i] == {
                    let a = #[trigger] old(self).agents@[i];
                    moved_by(
                        a,
                        scale_vel(a.vel.x as int, dt as int),
                        scale_vel(a.vel.y as int, dt as int),
                    )
                },
            forall|i: int|
                0 <= i < old(self).agents@.len() ==> {
                    let a = #[trigger] old(self).agents@[i];
                    let b = final(self).agents@[i];
                    &&& b.kind == a.kind
                    &&& b.vel == a.vel
                    &&& b.vision == a.vision
                    &&& abs_i(b.pos.x - a.pos.x) <= SPEED_LIMIT
                    &&& abs_i(b.pos.y - a.pos.y) <= SPEED_LIMIT
                },
    {
        let ghost orig = self.agents@;
        let ghost cfg = self.config;
        let mut i: usize = 0;
        while i < self.agents.len()
            invariant
                self.config == cfg,
                0 <= dt <= TICK_UNIT,
                self.agents@.len() == orig.len(),
                0 <= i <= orig.len(),
                forall|j: int| i <= j < orig.len() ==> self.agents@[j] == orig[j],
                forall|j: int| 0 <= j < orig.len() ==> mid_ok(#[trigger] orig[j]),
                forall|j: int|
                    0 <= j < i ==> self.agents@[j] == {
                        let a = #[trigger] orig[j];
                        moved_by(
                            a,
                            scale_vel(a.vel.x as int, dt as int),
                            scale_vel(a.vel.y as int, dt as int),
                        )
                    },
                forall|j: int|
                    0 <= j < i ==> {
                        let b = #[trigger] self.agents@[j];
                        &&& abs_i(b.pos.x - orig[j].pos.x) <= SPEED_LIMIT
                        &&& abs_i(b.pos.y - orig[j].pos.y) <= SPEED_LIMIT
                    },
            decreases orig.len() - i,
        {
            let a = self.agents[i];
            proof {
                assert(self.agents@[i as int] == orig[i as int]);
                assert(mid_ok(orig[i as int]));
            }
            let sx = scaled_vel_val(a.vel.x, dt);
            let sy = scaled_vel_val(a.vel.y, dt);
            let mut b = a;
            b.pos.x = a.pos.x + sx;
            b.pos.y = a.pos.y + sy;
            self.agents[i] = b;
            i = i + 1;
        }
    }

    /// The conversion stage: one resolver pass over the current positions.
    /// Every agent with a predator in inner contact acquires that predator's
    /// kind; positions, velocities and vision are untouched. Decisions are
    /// taken against the pre-pass snapshot, so converting one agent never
    /// enables or disables another conversion in the same pass.
    ///
    /// After the pass, any remaining predator-prey pair in inner contact
    /// involves an agent whose kind the pass itself changed: all contacts
    /// resolvable against the snapshot are resolved in one pass.
    #[verifier::spinoff_prover]
    pub fn resolve_collisions(&mut self)
        requires
            old(self).mid_wf(),
        ensures
            final(self).config == old(self).config,
            final(self).agents@.len() == old(self).agents@.len(),
            forall|j: int|
                0 <= j < old(self).agents@.len() ==> {
                    let a = #[trigger] old(self).agents@[j];
                    let b = final(self).agents@[j];
                    &&& b.pos == a.pos
                    &&& b.vel == a.vel
                    &&& b.vision == a.vision
                    &&& b.kind == resolved_kind(
                        old(self).agents@,
                        j,
                        old(self).config.contact_sq(),
                    )
                },
            forall|i: int, j: int|
                0 <= i < old(self).agents@.len() && 0 <= j < old(self).agents@.len() && i != j
                    && dist_sq(old(self).agents@[i].pos, old(self).agents@[j].pos) <= old(
                    self,
                ).config.contact_sq() && (#[trigger] final(self).agents@[i]).kind.spec_prey() == (
                #[trigger] final(self).agents@[j]).kind ==> final(self).agents@[i].kind != old(
                    self,
                ).agents@[i].kind || final(self).agents@[j].kind != old(self).agents@[j].kind,
    {
        let ghost orig = self.agents@;
        let ghost cfg = self.config;
        let contact = 2 * self.config.sprite_size;
        proof {
            assert(contact * contact <= 0x4_0000_0000_0000) by (nonlinear_arith)
                requires
                    0 <= contact <= 0x20_0000,
            ;
        }
        let contact2 = contact * contact;
        let ghost c2 = cfg.contact_sq();
        proof {
            reveal(aggressor_exists);
            reveal(resolved_kind);
        }
        let mut new_kinds: Vec<Mock> = Vec::new();
        let mut j: usize = 0;
        while j < self.agents.len()
            invariant
                self.config == cfg,
                self.agents@ == orig,
                contact2 == c2,
                0 <= j <= orig.len(),
                forall|q: int| 0 <= q < orig.len() ==> mid_ok(#[trigger] orig[q]),
                new_kinds@.len() == j,
                forall|q: int|
                    0 <= q < j ==> new_kinds@[q] == resolved_kind(orig, q, c2),
            decreases orig.len() - j,
        {
            let b = self.agents[j];
            let pred = b.kind.predator();
            let mut found = false;
            let mut i: usize = 0;
            while i < self.agents.len()
                invariant
                    self.config == cfg,
                    self.agents@ == orig,
                    contact2 == c2,
                    0 <= j < orig.len(),
                    b == orig[j as int],
                    pred == orig[j as int].kind.spec_predator(),
                    0 <= i <= orig.len(),
                    forall|q: int| 0 <= q < orig.len() ==> mid_ok(#[trigger] orig[q]),
                    found ==> aggressor_exists(orig, j as int, c2),
                    !found ==> forall|q: int|
                        0 <= q < i ==> !(q != j as int && (#[trigger] orig[q]).kind == orig[
                            j as int
                        ].kind.spec_predator() && dist_sq(orig[q].pos, orig[j as int].pos) <= c2),
                decreases orig.len() - i,
            {
                if i != j {
                    let other = self.agents[i];
                    if other.kind == pred {
                        let d2 = dist_sq_val(other.pos, b.pos);
                        if d2 <= contact2 {
                            found = true;
                            proof {
                                reveal(aggressor_exists);
                            }
                        }
                    }
                }
                i = i + 1;
            }
            if found {
                proof {
                    reveal(resolved_kind);
                }
                new_kinds.push(pred);
            } else {
                proof {
                    reveal(aggressor_exists);
                    reveal(resolved_kind);
                    assert(!aggressor_exists(orig, j as int, c2));
                }
                new_kinds.push(b.kind);
            }
            j = j + 1;
        }
        let mut q: usize = 0;
        while q < self.agents.len()
            invariant
                self.config == cfg,
                self.agents@.len() == orig.len(),
                new_kinds@.len() == orig.len(),
                0 <= q <= orig.len(),
                forall|t: int| 0 <= t < orig.len() ==> new_kinds@[t] == resolved_kind(orig, t, c2),
                forall|t: int| q <= t < orig.len() ==> self.agents@[t] == orig[t],
                forall|t: int|
                    0 <= t < q ==> {
                        let a = #[trigger] orig[t];
                        let b = self.agents@[t];
                        &&& b.pos == a.pos
                        &&& b.vel == a.vel
                        &&& b.vision == a.vision
                        &&& b.kind == resolved_kind(orig, t, c2)
                    },
            decreases orig.len() - q,
        {
            let mut a = self.agents[q];
            a.kind = new_kinds[q];
            self.agents[q] = a;
            q = q + 1;
        }
        proof {
            assert forall|i: int, j: int|
                0 <= i < orig.len() && 0 <= j < orig.len() && i != j && dist_sq(
                    orig[i].pos,
                    orig[j].pos,
                ) <= c2 && (#[trigger] self.agents@[i]).kind.spec_prey() == (
                #[trigger] self.agents@[j]).kind implies self.agents@[i].kind != orig[i].kind
                || self.agents@[j].kind != orig[j].kind by {
                if self.agents@[i].kind == orig[i].kind && self.agents@[j].kind == orig[j].kind {
                    reveal(aggressor_exists);
                    reveal(resolved_kind);
                    crate::kind::lemma_predator_unique(orig[j].kind, orig[i].kind);
                    assert(orig[i].kind == orig[j].kind.spec_predator());
                    assert(aggressor_exists(orig, j, c2));
                    crate::kind::lemma_prey_cycle(orig[j].kind);
                    crate::kind::lemma_predator_unique(orig[j].kind, orig[j].kind);
                    assert(orig[j].kind.spec_predator() != orig[j].kind);
                    assert(self.agents@[j].kind == orig[j].kind.spec_predator());
                    assert(false);
                }
            }
        }
    }
}

impl Simulation {
    /// The two steering passes of one kind, in order: pursuit against the
    /// prey index, then flight against the predator index. Only agents of
    /// kind `k` move, by at most two steering steps per axis.
    #[verifier::spinoff_prover]
    fn steer_kind(&mut self, k: Mock, prey: &SpatialIndex, pred: &SpatialIndex, dt: i64)
        requires
            old(self).config.wf(),
            prey.wf(),
            pred.wf(),
            0 <= dt <= TICK_UNIT,
            forall|i: int|
                0 <= i < old(self).agents@.len() ==> mid_ok(#[trigger] old(self).agents@[i])
                    && old(self).agents@[i].pos.in_range((GEOM_LIMIT - 2 * SPEED_LIMIT) as int),
        ensures
            final(self).config == old(self).config,
            final(self).agents@.len() == old(self).agents@.len(),
            forall|i: int|
                0 <= i < old(self).agents@.len() ==> final(self).agents@[i] == (if old(
                    self,
                ).agents@[i].kind == k {
                    flee_update(
                        pursuit_update(
                            #[trigger] old(self).agents@[i],
                            prey.entries@,
                            old(self).config,
                            dt as int,
                        ),
                        pred.entries@,
                        old(self).config,
                    )
                } else {
                    old(self).agents@[i]
                }),
            forall|i: int|
                0 <= i < old(self).agents@.len() ==> {
                    let a = #[trigger] old(self).agents@[i];
                    let b = final(self).agents@[i];
                    &&& b.kind == a.kind
                    &&& b.vel == a.vel
                    &&& b.vision == a.vision
                    &&& abs_i(b.pos.x - a.pos.x) <= 2 * SPEED_LIMIT
                    &&& abs_i(b.pos.y - a.pos.y) <= 2 * SPEED_LIMIT
                    &&& mid_ok(b)
                },
    {
        let ghost cfg = self.config;
        let ghost s0 = self.agents@;
        self.handle_targets(k, prey, dt);
        let ghost s1 = self.agents@;
        proof {
            assert forall|i: int| 0 <= i < s1.len() implies mid_ok(#[trigger] s1[i]) by {
                assert(mid_ok(s0[i]));
            }
        }
        self.handle_enemies(k, pred);
        let ghost s2 = self.agents@;
        proof {
            assert forall|i: int| 0 <= i < s2.len() implies s2[i] == (if s0[i].kind == k {
                flee_update(
                    pursuit_update(#[trigger] s0[i], prey.entries@, cfg, dt as int),
                    pred.entries@,
                    cfg,
                )
            } else {
                s0[i]
            }) by {
                assert(s1[i].kind == s0[i].kind);
            }
            assert forall|i: int| 0 <= i < s2.len() implies {
                let a = #[trigger] s0[i];
                let b = s2[i];
                &&& b.kind == a.kind
                &&& b.vel == a.vel
                &&& b.vision == a.vision
                &&& abs_i(b.pos.x - a.pos.x) <= 2 * SPEED_LIMIT
                &&& abs_i(b.pos.y - a.pos.y) <= 2 * SPEED_LIMIT
                &&& mid_ok(b)
            } by {
                assert(mid_ok(s0[i]));
                assert(mid_ok(s1[i]));
            }
        }
    }
}

/// Where containment re-seats a coordinate: clamped to the containment box
/// `[-bound, bound]`.
pub open spec fn contained_pos(x: int, bound: int) -> int {
    if x <= -bound {
        -bound
    } else if x >= bound {
        bound
    } else {
        x
    }
}

/// The velocity component after containment: forced to point back into the
/// arena at either wall, untouched in the interior.
pub open spec fn contained_vel(x: int, v: int, bound: int) -> int {
    if x <= -bound {
        abs_i(v)
    } else if x >= bound {
        -abs_i(v)
    } else {
        v
    }
}

/// Containment leaves a coordinate inside the box, and immediately after a
/// boundary event the velocity component points inward.
pub proof fn lemma_contained_inward(x: int, v: int, bound: int)
    requires
        0 < bound,
    ensures
        -bound <= contained_pos(x, bound) <= bound,
        x <= -bound ==> contained_vel(x, v, bound) >= 0,
        x >= bound ==> contained_vel(x, v, bound) <= 0,
        abs_i(contained_vel(x, v, bound)) == abs_i(v),
{
}

impl Simulation {
    /// Contains every agent at the arena edges: positions are clamped into
    /// the box inset by `gap`, and at a wall the velocity component is
    /// forced to point back toward the interior.
    #[verifier::spinoff_prover]
    pub fn check_boundaries(&mut self)
        requires
            old(self).mid_wf(),
        ensures
            final(self).config == old(self).config,
            final(self).agents@.len() == old(self).agents@.len(),
            forall|i: int|
                0 <= i < old(self).agents@.len() ==> {
                    let a = #[trigger] old(self).agents@[i];
                    let b = final(self).agents@[i];
                    let bx = old(self).config.half_width - old(self).config.gap;
                    let by = old(self).config.half_height - old(self).config.gap;
                    &&& b.kind == a.kind
                    &&& b.vision == a.vision
                    &&& b.pos.x == contained_pos(a.pos.x as int, bx as int)
                    &&& b.pos.y == contained_pos(a.pos.y as int, by as int)
                    &&& b.vel.x == contained_vel(a.pos.x as int, a.vel.x as int, bx as int)
                    &&& b.vel.y == contained_vel(a.pos.y as int, a.vel.y as int, by as int)
                },
    {
        let ghost orig = self.agents@;
        let ghost cfg = self.config;
        let bx = self.config.half_width - self.config.gap;
        let by = self.config.half_height - self.config.gap;
        let mut i: usize = 0;
        while i < self.agents.len()
            invariant
                self.config == cfg,
                cfg.wf(),
                bx == cfg.half_width - cfg.gap,
                by == cfg.half_height - cfg.gap,
                0 < bx,
                0 < by,
                self.agents@.len() == orig.len(),
                0 <= i <= orig.len(),
                forall|j: int| i <= j < orig.len() ==> self.agents@[j] == orig[j],
                forall|j: int| i <= j < orig.len() ==> mid_ok(#[trigger] orig[j]),
                forall|j: int|
                    0 <= j < i ==> {
                        let a = #[trigger] orig[j];
                        let b = self.agents@[j];
                        &&& b.kind == a.kind
                        &&& b.vision == a.vision
                        &&& b.pos.x == contained_pos(a.pos.x as int, bx as int)
                        &&& b.pos.y == contained_pos(a.pos.y as int, by as int)
                        &&& b.vel.x == contained_vel(a.pos.x as int, a.vel.x as int, bx as int)
                        &&& b.vel.y == contained_vel(a.pos.y as int, a.vel.y as int, by as int)
                    },
            decreases orig.len() - i,
        {
            let mut a = self.agents[i];
            proof {
                assert(self.agents@[i as int] == orig[i as int]);
                assert(mid_ok(orig[i as int]));
            }
            if a.pos.x <= -bx {
                a.pos.x = -bx;
                a.vel.x = if a.vel.x >= 0 {
                    a.vel.x
                } else {
                    -a.vel.x
                };
            }
            if a.pos.x >= bx {
                a.pos.x = bx;
                a.vel.x = if a.vel.x >= 0 {
                    -a.vel.x
                } else {
                    a.vel.x
                };
            }
            if a.pos.y <= -by {
                a.pos.y = -by;
                a.vel.y = if a.vel.y >= 0 {
                    a.vel.y
                } else {
                    -a.vel.y
                };
            }
            if a.pos.y >= by {
                a.pos.y = by;
                a.vel.y = if a.vel.y >= 0 {
                    -a.vel.y
                } else {
                    a.vel.y
                };
            }
            self.agents[i] = a;
            i = i + 1;
        }
    }
}

/// Strict lexicographic order on agent-index pairs.
pub open spec fn pair_lt(a: (usize, usize), b: (usize, usize)) -> bool {
    a.0 < b.0 || (a.0 == b.0 && a.1 < b.1)
}

impl Simulation {
    /// Recomputes the transient contact-pair list from the current
    /// positions: exactly the ordered pairs of distinct agents within
    /// inner-contact distance, each direction listed once, in lexicographic
    /// order. The list is never persisted across ticks.
    #[verifier::spinoff_prover]
    pub fn detect_collisions(&self) -> (pairs: CollidablePairs)
        requires
            self.mid_wf(),
        ensures
            forall|p: (usize, usize)|
                pairs.0@.contains(p) <==> {
                    &&& (p.0 as int) < self.agents@.len()
                    &&& (p.1 as int) < self.agents@.len()
                    &&& p.0 != p.1
                    &&& dist_sq(self.agents@[p.0 as int].pos, self.agents@[p.1 as int].pos)
                        <= self.config.contact_sq()
                },
            forall|k1: int, k2: int|
                0 <= k1 < k2 < pairs.0@.len() ==> pair_lt(
                    #[trigger] pairs.0@[k1],
                    #[trigger] pairs.0@[k2],
                ),
    {
        let ghost s = self.agents@;
        let ghost c2 = self.config.contact_sq();
        let contact = 2 * self.config.sprite_size;
        proof {
            assert(contact * contact <= 0x4_0000_0000_0000) by (nonlinear_arith)
                requires
                    0 <= contact <= 0x20_0000,
            ;
        }
        let contact2 = contact * contact;
        let mut r: Vec<(usize, usize)> = Vec::new();
        let mut i: usize = 0;
        while i < self.agents.len()
            invariant
                self.mid_wf(),
                s == self.agents@,
                c2 == self.config.contact_sq(),
                contact2 == c2,
                0 <= i <= s.len(),
                forall|p: (usize, usize)|
                    r@.contains(p) <==> {
                        &&& (p.0 as int) < i
                        &&& (p.1 as int) < s.len()
                        &&& p.0 != p.1
                        &&& dist_sq(s[p.0 as int].pos, s[p.1 as int].pos) <= c2
                    },
                forall|k1: int, k2: int|
                    0 <= k1 < k2 < r@.len() ==> pair_lt(#[trigger] r@[k1], #[trigger] r@[k2]),
                forall|t: int| 0 <= t < r@.len() ==> ((#[trigger] r@[t]).0 as int) < i,
            decreases s.len() - i,
        {
            let mut j: usize = 0;
            while j < self.agents.len()
                invariant
                    self.mid_wf(),
                    s == self.agents@,
                    c2 == self.config.contact_sq(),
                    contact2 == c2,
                    0 <= i < s.len(),
                    0 <= j <= s.len(),
                    forall|p: (usize, usize)|
                        r@.contains(p) <==> {
                            &&& (p.1 as int) < s.len()
                            &&& p.0 != p.1
                            &&& dist_sq(s[p.0 as int].pos, s[p.1 as int].pos) <= c2
                            &&& ((p.0 as int) < i || ((p.0 as int) == i && (p.1 as int) < j))
                        },
                    forall|k1: int, k2: int|
                        0 <= k1 < k2 < r@.len() ==> pair_lt(#[trigger] r@[k1], #[trigger] r@[k2]),
                    forall|t: int|
                        0 <= t < r@.len() ==> {
                            let q = #[trigger] r@[t];
                            (q.0 as int) < i || ((q.0 as int) == i && (q.1 as int) < j)
                        },
                decreases s.len() - j,
            {
                if i != j {
                    let pi = self.agents[i].pos;
                    let pj = self.agents[j].pos;
                    let d2 = dist_sq_val(pi, pj);
                    if d2 <= contact2 {
                        let ghost rold = r@;
                        r.push((i, j));
                        proof {
                            assert forall|p: (usize, usize)| #[trigger]
                                r@.contains(p) <==> (rold.contains(p) || p == (i, j)) by {
                                vstd::seq_lib::lemma_seq_contains_after_push(rold, (i, j), p);
                            }
                            assert(forall|t: int| 0 <= t < rold.len() ==> r@[t] == rold[t]);
                            assert(r@[rold.len() as int] == (i, j));
                        }
                    }
                }
                j = j + 1;
            }
            i = i + 1;
        }
        CollidablePairs(r)
    }
}

/// How many agents each spawn region receives at startup.
pub const AGENTS_PER_REGION: usize = 10;

/// The kind assigned to the agents of region `i`: regions cycle through
/// Rock, Paper, Scissors.
pub open spec fn kind_cycle(i: int) -> Mock {
    if i % 3 == 0 {
        Mock::Rock
    } else if i % 3 == 1 {
        Mock::Paper
    } else {
        Mock::Scissors
    }
}

impl Simulation {
    /// Appends one agent of `kind` at `pos` with vision radius
    /// `sprite_size + radius` and the initial diagonal velocity.
    pub fn spawn(&mut self, kind: Mock, pos: Vec2, radius: i64)
        requires
            old(self).config.wf(),
            -old(self).config.half_width <= pos.x <= old(self).config.half_width,
            -old(self).config.half_height <= pos.y <= old(self).config.half_height,
            0 <= radius,
            old(self).config.sprite_size + radius <= COORD_LIMIT,
            old(self).agents@.len() < usize::MAX,
        ensures
            final(self).config == old(self).config,
            final(self).agents@ == old(self).agents@.push(
                Agent {
                    kind,
                    pos,
                    vel: Vec2 {
                        x: old(self).config.base_speed,
                        y: old(self).config.base_speed,
                    },
                    vision: (old(self).config.sprite_size + radius) as i64,
                },
            ),
            old(self).wf() ==> final(self).wf(),
    {
        let vision = self.config.sprite_size + radius;
        let a = Agent::new(kind, pos, vision, self.config.base_speed);
        self.agents.push(a);
        proof {
            if old(self).wf() {
                assert forall|i: int|
                    0 <= i < self.agents@.len() implies agent_ok(
                    self.config,
                    #[trigger] self.agents@[i],
                ) by {
                    if i < old(self).agents@.len() {
                        assert(self.agents@[i] == old(self).agents@[i]);
                    }
                }
            }
        }
    }

    /// Startup spawning: each region receives `AGENTS_PER_REGION` agents of
    /// its cycling kind, each placed at a random offset within the region's
    /// disc (at most the region's radius from its center), with a vision
    /// radius of `sprite_size` plus a random part between `vision_lo` and
    /// `vision_hi`. The host drives the game state onward once spawning is
    /// done.
    #[verifier::spinoff_prover]
    pub fn spawn_entities(
        &mut self,
        rng: &mut rand::rngs::StdRng,
        regions: &Vec<(i64, i64, i64)>,
    )
        requires
            old(self).wf(),
            forall|i: int|
                0 <= i < regions@.len() ==> {
                    let r = #[trigger] regions@[i];
                    &&& 0 <= r.2
                    &&& -(old(self).config.half_width - r.2) <= r.0 <= old(
                        self,
                    ).config.half_width - r.2
                    &&& -(old(self).config.half_height - r.2) <= r.1 <= old(
                        self,
                    ).config.half_height - r.2
                },
            old(self).agents@.len() + regions@.len() * 10 <= usize::MAX,
        ensures
            final(self).config == old(self).config,
            final(self).wf(),
            final(self).agents@.len() == old(self).agents@.len() + regions@.len() * 10,
            forall|q: int|
                0 <= q < old(self).agents@.len() ==> final(self).agents@[q] == old(
                    self,
                ).agents@[q],
            forall|q: int|
                0 <= q < regions@.len() * 10 ==> {
                    let a = #[trigger] final(self).agents@[old(self).agents@.len() + q];
                    let r = regions@[q / 10];
                    &&& a.kind == kind_cycle(q / 10)
                    &&& r.0 - r.2 <= a.pos.x <= r.0 + r.2
                    &&& r.1 - r.2 <= a.pos.y <= r.1 + r.2
                    &&& dist_sq(a.pos, Vec2 { x: r.0, y: r.1 }) <= r.2 * r.2
                    &&& old(self).config.sprite_size + old(self).config.vision_lo <= a.vision
                        <= old(self).config.sprite_size + old(self).config.vision_hi
                    &&& a.vel == (Vec2 {
                        x: old(self).config.base_speed,
                        y: old(self).config.base_speed,
                    })
                },
    {
        let ghost cfg = self.config;
        let ghost pre = self.agents@;
        let ghost base = self.agents@.len() as int;
        let mut i: usize = 0;
        while i < regions.len()
            invariant
                self.config == cfg,
                cfg.wf(),
                self.wf(),
                forall|t: int|
                    0 <= t < regions@.len() ==> {
                        let r = #[trigger] regions@[t];
                        &&& 0 <= r.2
                        &&& -(cfg.half_width - r.2) <= r.0 <= cfg.half_width - r.2
                        &&& -(cfg.half_height - r.2) <= r.1 <= cfg.half_height - r.2
                    },
                base == pre.len(),
                base + regions@.len() * 10 <= usize::MAX,
                0 <= i <= regions@.len(),
                self.agents@.len() == base + i * 10,
                forall|q: int| 0 <= q < base ==> self.agents@[q] == pre[q],
                forall|q: int|
                    0 <= q < i * 10 ==> {
                        let a = #[trigger] self.agents@[base + q];
                        let r = regions@[q / 10];
                        &&& a.kind == kind_cycle(q / 10)
                        &&& r.0 - r.2 <= a.pos.x <= r.0 + r.2
                        &&& r.1 - r.2 <= a.pos.y <= r.1 + r.2
                        &&& dist_sq(a.pos, Vec2 { x: r.0, y: r.1 }) <= r.2 * r.2
                        &&& cfg.sprite_size + cfg.vision_lo <= a.vision <= cfg.sprite_size
                            + cfg.vision_hi
                        &&& a.vel == (Vec2 { x: cfg.base_speed, y: cfg.base_speed })
                    },
            decreases regions@.len() - i,
        {
            let (rx, ry, rr) = regions[i];
            let kk = i % 3;
            let kind = if kk == 0 {
                Mock::Rock
            } else if kk == 1 {
                Mock::Paper
            } else {
                Mock::Scissors
            };
            proof {
                assert(kind == kind_cycle(i as int));
            }
            let mut t: usize = 0;
            while t < AGENTS_PER_REGION
                invariant
                    self.config == cfg,
                    cfg.wf(),
                    self.wf(),
                    forall|u: int|
                        0 <= u < regions@.len() ==> {
                            let r = #[trigger] regions@[u];
                            &&& 0 <= r.2
                            &&& -(cfg.half_width - r.2) <= r.0 <= cfg.half_width - r.2
                            &&& -(cfg.half_height - r.2) <= r.1 <= cfg.half_height - r.2
                        },
                    base == pre.len(),
                    base + regions@.len() * 10 <= usize::MAX,
                    0 <= i < regions@.len(),
                    (rx, ry, rr) == regions@[i as int],
                    kind == kind_cycle(i as int),
                    0 <= t <= 10,
                    self.agents@.len() == base + i * 10 + t,
                    forall|q: int| 0 <= q < base ==> self.agents@[q] == pre[q],
                    forall|q: int|
                        0 <= q < i * 10 + t ==> {
                            let a = #[trigger] self.agents@[base + q];
                            let r = regions@[q / 10];
                            &&& a.kind == kind_cycle(q / 10)
                            &&& r.0 - r.2 <= a.pos.x <= r.0 + r.2
                            &&& r.1 - r.2 <= a.pos.y <= r.1 + r.2
                            &&& dist_sq(a.pos, Vec2 { x: r.0, y: r.1 }) <= r.2 * r.2
                            &&& cfg.sprite_size + cfg.vision_lo <= a.vision <= cfg.sprite_size
                                + cfg.vision_hi
                            &&& a.vel == (Vec2 { x: cfg.base_speed, y: cfg.base_speed })
                        },
                decreases 10 - t,
            {
                proof {
                    assert(0 <= rr && rr <= cfg.half_width <= COORD_LIMIT);
                }
                let dx = rng_range(rng, -rr, rr);
                proof {
                    assert(0 <= rr * rr <= 0x4_0000_0000_0000 && 0 <= dx * dx <= rr * rr)
                        by (nonlinear_arith)
                        requires
                            0 <= rr <= 0x20_0000 && -rr <= dx <= rr,
                    ;
                }
                let span = isqrt(rr * rr - dx * dx);
                proof {
                    assert(span <= rr) by (nonlinear_arith)
                        requires
                            0 <= span && 0 <= rr && span * span <= rr * rr,
                    ;
                }
                let dy = rng_range(rng, -span, span);
                proof {
                    assert(dy * dy <= span * span) by (nonlinear_arith)
                        requires
                            -span <= dy <= span,
                    ;
                }
                let extra = rng_range(rng, self.config.vision_lo, self.config.vision_hi);
                let pos = Vec2 { x: rx + dx, y: ry + dy };
                proof {
                    assert(i * 10 + t < regions@.len() * 10) by (nonlinear_arith)
                        requires
                            0 <= i < regions@.len() && 0 <= t < 10,
                    ;
                }
                let ghost before = self.agents@;
                self.spawn(kind, pos, extra);
                proof {
                    let q = i as int * 10 + t as int;
                    lemma_fundamental_div_mod_converse(q, 10, i as int, t as int);
                    assert(q / 10 == i as int);
                    assert(regions@[q / 10] == (rx, ry, rr));
                    assert(forall|u: int|
                        0 <= u < before.len() ==> #[trigger] self.agents@[u] == before[u]);
                    assert(self.agents@[base + q] == Agent {
                        kind,
                        pos,
                        vel: Vec2 { x: cfg.base_speed, y: cfg.base_speed },
                        vision: (cfg.sprite_size + extra) as i64,
                    });
                    assert((cfg.sprite_size + extra) as i64 == cfg.sprite_size + extra);
                    assert forall|q2: int| 0 <= q2 < i * 10 + (t + 1) implies {
                        let a = #[trigger] self.agents@[base + q2];
                        let r = regions@[q2 / 10];
                        &&& a.kind == kind_cycle(q2 / 10)
                        &&& r.0 - r.2 <= a.pos.x <= r.0 + r.2
                        &&& r.1 - r.2 <= a.pos.y <= r.1 + r.2
                        &&& dist_sq(a.pos, Vec2 { x: r.0, y: r.1 }) <= r.2 * r.2
                        &&& cfg.sprite_size + cfg.vision_lo <= a.vision <= cfg.sprite_size
                            + cfg.vision_hi
                        &&& a.vel == (Vec2 { x: cfg.base_speed, y: cfg.base_speed })
                    } by {
                        if q2 < i * 10 + t {
                            assert(before.len() == base + i * 10 + t);
                            assert(0 <= base + q2 < before.len());
                            assert(before[base + q2] == self.agents@[base + q2]);
                        } else {
                            assert(q2 == q);
                        }
                    }
                }
                t = t + 1;
            }
            i = i + 1;
        }
    }
}

/// The whole agent table after the steering stages: every agent takes one
/// pursuit pass against the snapshot of its prey kind and then one flight
/// pass against the snapshot of its predator kind, all snapshots taken from
/// the same pre-steering table.
#[verifier::opaque]
pub open spec fn steered(s: Seq<Agent>, cfg: SimConfig, dt: int) -> Seq<Agent> {
    Seq::new(
        s.len(),
        |i: int|
            flee_update(
                pursuit_update(s[i], entries_of(s, s[i].kind.spec_prey()), cfg, dt),
                entries_of(s, s[i].kind.spec_predator()),
                cfg,
            ),
    )
}

/// The table after velocity integration over `dt`.
#[verifier::opaque]
pub open spec fn integrated(s: Seq<Agent>, dt: int) -> Seq<Agent> {
    Seq::new(
        s.len(),
        |i: int|
            moved_by(s[i], scale_vel(s[i].vel.x as int, dt), scale_vel(s[i].vel.y as int, dt)),
    )
}

/// The table after one resolver pass at squared contact threshold
/// `contact2`: kinds per `resolved_kind`, everything else untouched.
#[verifier::opaque]
pub open spec fn resolved(s: Seq<Agent>, contact2: int) -> Seq<Agent> {
    Seq::new(
        s.len(),
        |j: int|
            Agent {
                kind: resolved_kind(s, j, contact2),
                pos: s[j].pos,
                vel: s[j].vel,
                vision: s[j].vision,
            },
    )
}

/// The table after boundary containment in the box inset by `gap`.
#[verifier::opaque]
pub open spec fn contained(s: Seq<Agent>, cfg: SimConfig) -> Seq<Agent> {
    Seq::new(
        s.len(),
        |i: int|
            {
                let a = s[i];
                let bx = cfg.half_width - cfg.gap;
                let by = cfg.half_height - cfg.gap;
                Agent {
                    kind: a.kind,
                    vision: a.vision,
                    pos: Vec2 {
                        x: contained_pos(a.pos.x as int, bx) as i64,
                        y: contained_pos(a.pos.y as int, by) as i64,
                    },
                    vel: Vec2 {
                        x: contained_vel(a.pos.x as int, a.vel.x as int, bx) as i64,
                        y: contained_vel(a.pos.y as int, a.vel.y as int, by) as i64,
                    },
                }
            },
    )
}

/// One tick of the whole simulation as a function of the pre-tick table:
/// steering against pre-tick snapshots, then velocity integration over
/// `dt`, then one resolver pass, then boundary containment — in exactly
/// that order.
pub open spec fn tick_spec(s: Seq<Agent>, cfg: SimConfig, dt: int) -> Seq<Agent> {
    contained(resolved(integrated(steered(s, cfg, dt), dt), cfg.contact_sq()), cfg)
}

impl Simulation {
    /// The movement stages of one tick: steering for each kind against
    /// fresh index snapshots, then velocity integration. The result is
    /// exactly `integrated(steered(..))`; kinds, velocities and vision
    /// radii are untouched and every agent stays mid-tick sound.
    #[verifier::spinoff_prover]
    fn advance(&mut self, dt: i64)
        requires
            old(self).wf(),
            0 <= dt <= TICK_UNIT,
        ensures
            final(self).config == old(self).config,
            final(self).agents@.len() == old(self).agents@.len(),
            final(self).agents@ == integrated(
                steered(old(self).agents@, old(self).config, dt as int),
                dt as int,
            ),
            forall|i: int|
                0 <= i < old(self).agents@.len() ==> {
                    let a = #[trigger] old(self).agents@[i];
                    let b = final(self).agents@[i];
                    &&& mid_ok(b)
                    &&& b.vel == a.vel
                    &&& b.vision == a.vision
                },
    {
        let ghost cfg = self.config;
        let ghost s0 = self.agents@;
        proof {
            assert forall|i: int| 0 <= i < self.agents@.len() implies mid_ok(
                #[trigger] self.agents@[i],
            ) by {
                assert(agent_ok(cfg, self.agents@[i]));
            }
        }
        let rock_idx = self.rebuild_index(Mock::Rock);
        let paper_idx = self.rebuild_index(Mock::Paper);
        let scissors_idx = self.rebuild_index(Mock::Scissors);
        self.steer_kind(Mock::Rock, &scissors_idx, &paper_idx, dt);
        let ghost s1 = self.agents@;
        proof {
            assert forall|i: int| 0 <= i < s1.len() implies mid_ok(#[trigger] s1[i]) && s1[i].vel
                == s0[i].vel && s1[i].vision == s0[i].vision && s1[i].kind == s0[i].kind
                && s1[i].pos.in_range((COORD_LIMIT + 2 * SPEED_LIMIT) as int) by {
                assert(agent_ok(cfg, s0[i]));
            }
        }
        self.steer_kind(Mock::Paper, &rock_idx, &scissors_idx, dt);
        let ghost s2 = self.agents@;
        proof {
            assert forall|i: int| 0 <= i < s2.len() implies mid_ok(#[trigger] s2[i]) && s2[i].vel
                == s0[i].vel && s2[i].vision == s0[i].vision && s2[i].kind == s0[i].kind
                && s2[i].pos.in_range((COORD_LIMIT + 4 * SPEED_LIMIT) as int) by {
                assert(agent_ok(cfg, s0[i]));
                assert(mid_ok(s1[i]));
            }
        }
        self.steer_kind(Mock::Scissors, &paper_idx, &rock_idx, dt);
        let ghost s3 = self.agents@;
        proof {
            assert forall|i: int| 0 <= i < s3.len() implies mid_ok(#[trigger] s3[i]) && s3[i].vel
                == s0[i].vel && s3[i].vision == s0[i].vision by {
                assert(agent_ok(cfg, s0[i]));
                assert(mid_ok(s2[i]));
            }
            reveal(steered);
            let st = steered(s0, cfg, dt as int);
            assert forall|i: int| 0 <= i < s3.len() implies s3[i] == st[i] by {
                let k = s0[i].kind;
                assert(s1[i].kind == k && s2[i].kind == k);
                if k == Mock::Rock {
                    assert(s1[i] == flee_update(
                        pursuit_update(s0[i], scissors_idx.entries@, cfg, dt as int),
                        paper_idx.entries@,
                        cfg,
                    ));
                    assert(s2[i] == s1[i] && s3[i] == s2[i]);
                } else if k == Mock::Paper {
                    assert(s1[i] == s0[i]);
                    assert(s2[i] == flee_update(
                        pursuit_update(s1[i], rock_idx.entries@, cfg, dt as int),
                        scissors_idx.entries@,
                        cfg,
                    ));
                    assert(s3[i] == s2[i]);
                } else {
                    assert(s1[i] == s0[i] && s2[i] == s1[i]);
                    assert(s3[i] == flee_update(
                        pursuit_update(s2[i], paper_idx.entries@, cfg, dt as int),
                        rock_idx.entries@,
                        cfg,
                    ));
                }
            }
            assert(s3 =~= st);
        }
        self.update_positions(dt);
        proof {
            assert forall|i: int| 0 <= i < self.agents@.len() implies mid_ok(
                #[trigger] self.agents@[i],
            ) && self.agents@[i].vel == s0[i].vel && self.agents@[i].vision == s0[i].vision by {
                assert(agent_ok(cfg, s0[i]));
                assert(mid_ok(s3[i]));
            }
            reveal(integrated);
            let it = integrated(steered(s0, cfg, dt as int), dt as int);
            assert forall|i: int| 0 <= i < self.agents@.len() implies self.agents@[i] == it[i] by {
                assert(steered(s0, cfg, dt as int)[i] == s3[i]);
            }
            assert(self.agents@ =~= it);
        }
    }

    /// One full simulation step, stages in their fixed order: rebuild the
    /// three per-kind indexes, then for each kind pursue the nearest prey
    /// and flee the nearest predator in vision, integrate velocities,
    /// resolve conversions on contact, and contain agents at the arena
    /// boundary. The result is exactly `tick_spec` of the pre-tick table;
    /// afterwards every agent stands inside the containment box (inset by
    /// `gap`) with its vision radius unchanged, and the simulation is again
    /// at rest.
    #[verifier::rlimit(100)]
    #[verifier::spinoff_prover]
    pub fn tick(&mut self, dt: i64)
        requires
            old(self).wf(),
            0 <= dt <= TICK_UNIT,
        ensures
            final(self).config == old(self).config,
            final(self).agents@.len() == old(self).agents@.len(),
            final(self).agents@ == tick_spec(old(self).agents@, old(self).config, dt as int),
            final(self).wf(),
            forall|i: int|
                0 <= i < old(self).agents@.len() ==> {
                    let b = #[trigger] final(self).agents@[i];
                    &&& b.vision == old(self).agents@[i].vision
                    &&& -(old(self).config.half_width - old(self).config.gap) <= b.pos.x <= old(
                        self,
                    ).config.half_width - old(self).config.gap
                    &&& -(old(self).config.half_height - old(self).config.gap) <= b.pos.y <= old(
                        self,
                    ).config.half_height - old(self).config.gap
                },
    {
        let ghost cfg = self.config;
        let ghost s0 = self.agents@;
        let ghost mid = integrated(steered(s0, cfg, dt as int), dt as int);
        self.advance(dt);
        proof {
            assert(self.agents@ == mid);
            assert forall|i: int| 0 <= i < self.agents@.len() implies mid_ok(
                #[trigger] self.agents@[i],
            ) by {
                assert(agent_ok(cfg, s0[i]));
            }
            assert(self.mid_wf());
        }
        self.resolve_collisions();
        let ghost s8 = self.agents@;
        proof {
            assert forall|i: int| 0 <= i < s8.len() implies mid_ok(#[trigger] s8[i]) && s8[i].vel
                == s0[i].vel && s8[i].vision == s0[i].vision by {
                assert(agent_ok(cfg, s0[i]));
            }
            reveal(resolved);
            let rv = resolved(mid, cfg.contact_sq());
            assert forall|j: int| 0 <= j < s8.len() implies s8[j] == rv[j] by {}
            assert(s8 =~= rv);
        }
        self.check_boundaries();
        proof {
            assert forall|i: int| 0 <= i < self.agents@.len() implies agent_ok(
                cfg,
                #[trigger] self.agents@[i],
            ) && self.agents@[i].vision == s0[i].vision && -(cfg.half_width - cfg.gap)
                <= self.agents@[i].pos.x <= cfg.half_width - cfg.gap && -(cfg.half_height
                - cfg.gap) <= self.agents@[i].pos.y <= cfg.half_height - cfg.gap by {
                assert(agent_ok(cfg, s0[i]));
                assert(mid_ok(s8[i]));
                lemma_contained_inward(
                    s8[i].pos.x as int,
                    s8[i].vel.x as int,
                    (cfg.half_width - cfg.gap) as int,
                );
                lemma_contained_inward(
                    s8[i].pos.y as int,
                    s8[i].vel.y as int,
                    (cfg.half_height - cfg.gap) as int,
                );
            }
            reveal(contained);
            let ct = contained(resolved(mid, cfg.contact_sq()), cfg);
            assert forall|i: int| 0 <= i < self.agents@.len() implies self.agents@[i] == ct[i] by {
                assert(mid_ok(s8[i]));
                lemma_contained_inward(
                    s8[i].pos.x as int,
                    s8[i].vel.x as int,
                    (cfg.half_width - cfg.gap) as int,
                );
                lemma_contained_inward(
                    s8[i].pos.y as int,
                    s8[i].vel.y as int,
                    (cfg.half_height - cfg.gap) as int,
                );
            }
            assert(self.agents@ =~= ct);
            assert(self.agents@ == tick_spec(s0, cfg, dt as int));
        }
    }
}

} // verus!
