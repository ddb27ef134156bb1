//! The swarm: particles with their personal bests, the swarm-wide best, and
//! one sweep of the update law over all particles in order.
use vstd::prelude::*;
use crate::binary32::{is_nan, le, less_than, lt, INFINITY_BITS};

verus! {

/// One candidate solution: where it is, how it moves, and the lowest score it
/// has seen with the place it saw it.
pub struct Particle<V> {
    pub position: V,
    pub speed: V,
    pub best_position: V,
    pub best_score: u32,
}

/// A particle placed at `position`, at rest, that has not been scored yet.
pub open spec fn spawned<V>(position: V, zero: V) -> Particle<V> {
    Particle { position: position, speed: zero, best_position: zero, best_score: INFINITY_BITS }
}

/// The personal best of `old` once it has been scored `score` at `position`:
/// replaced only by a strictly lower score.
pub open spec fn rescored<V>(old: Particle<V>, position: V, score: u32) -> (u32, V) {
    if lt(score, old.best_score) {
        (score, position)
    } else {
        (old.best_score, old.best_position)
    }
}

/// `scorer` may return, at the new position of `new`, a score that turns the
/// personal best of `old` into that of `new`.
pub open spec fn scored<V, S: Fn(V) -> u32>(scorer: S, old: Particle<V>, new: Particle<V>) -> bool {
    exists|s: u32|
        #[trigger] scorer.ensures((new.position,), s) && rescored(old, new.position, s) == (
            new.best_score,
            new.best_position,
        )
}

/// A personal best that a sweep left alone, or lowered to the particle's
/// new position.
pub open spec fn kept_or_improved<V>(old: Particle<V>, new: Particle<V>) -> bool {
    ||| (new.best_score == old.best_score && new.best_position == old.best_position)
    ||| (lt(new.best_score, old.best_score) && new.best_position == new.position)
}

/// The swarm-wide best after the first `k` particles of a sweep, from `start`:
/// a particle that improved its own best replaces the swarm-wide best when it
/// is strictly lower, so later particles of the same sweep already see it.
pub open spec fn global_after<V>(
    old: Seq<Particle<V>>,
    new: Seq<Particle<V>>,
    start: (u32, V),
    k: int,
) -> (u32, V)
    decreases k,
{
    if k <= 0 {
        start
    } else {
        let g = global_after(old, new, start, k - 1);
        let b = new[k - 1].best_score;
        if lt(b, old[k - 1].best_score) && lt(b, g.0) {
            (b, new[k - 1].best_position)
        } else {
            g
        }
    }
}

/// What a sweep does to the bests, whatever the positions and scores were:
/// each personal best is kept or lowered to the new position, and the
/// swarm-wide best follows `global_after`.
pub open spec fn swept<V>(
    old: Seq<Particle<V>>,
    new: Seq<Particle<V>>,
    start: (u32, V),
    end: (u32, V),
) -> bool {
    &&& new.len() == old.len()
    &&& forall|i: int| 0 <= i < old.len() ==> kept_or_improved(old[i], #[trigger] new[i])
    &&& end == global_after(old, new, start, old.len() as int)
}

/// `global_after` reads only the first `k` particles of `new`.
proof fn lemma_global_after_prefix<V>(
    old: Seq<Particle<V>>,
    a: Seq<Particle<V>>,
    b: Seq<Particle<V>>,
    start: (u32, V),
    k: int,
)
    requires
        0 <= k <= a.len(),
        k <= b.len(),
        forall|j: int| 0 <= j < k ==> a[j] == b[j],
    ensures
        global_after(old, a, start, k) == global_after(old, b, start, k),
    decreases k,
{
    if k > 0 {
        lemma_global_after_prefix(old, a, b, start, k - 1);
    }
}

/// Along a sweep the swarm-wide best stays a number, never rises, and is at
/// most every personal best already visited.
proof fn lemma_global_after_bounds<V>(
    old: Seq<Particle<V>>,
    new: Seq<Particle<V>>,
    start: (u32, V),
    k: int,
)
    requires
        new.len() == old.len(),
        0 <= k <= old.len(),
        forall|i: int| 0 <= i < old.len() ==> kept_or_improved(old[i], #[trigger] new[i]),
        !is_nan(start.0),
        forall|i: int| 0 <= i < old.len() ==> le(start.0, #[trigger] old[i].best_score),
    ensures
        !is_nan(global_after(old, new, start, k).0),
        le(global_after(old, new, start, k).0, start.0),
        forall|i: int| 0 <= i < k ==> le(global_after(old, new, start, k).0, #[trigger] new[i].best_score),
    decreases k,
{
    if k > 0 {
        lemma_global_after_bounds(old, new, start, k - 1);
        assert(kept_or_improved(old[k - 1], new[k - 1]));
        assert(le(start.0, old[k - 1].best_score));
    }
}

impl<V: Copy> Particle<V> {
    /// A particle at `position` with velocity `zero`, best position `zero`
    /// and best score positive infinity.
    pub fn new(position: V, zero: V) -> (p: Self)
        ensures
            p == spawned(position, zero),
    {
        Particle { position: position, speed: zero, best_position: zero, best_score: INFINITY_BITS }
    }
}

/// The swarm with its best solution so far.
pub struct ParticleWorld<V> {
    particles: Vec<Particle<V>>,
    global_best_position: V,
    global_best_score: u32,
}

impl<V: Copy> ParticleWorld<V> {
    /// The particles, in sweep order.
    pub closed spec fn spec_particles(&self) -> Seq<Particle<V>> {
        self.particles@
    }

    /// The lowest score any particle has seen.
    pub closed spec fn spec_best_score(&self) -> u32 {
        self.global_best_score
    }

    /// Where the lowest score was seen.
    pub closed spec fn spec_best_position(&self) -> V {
        self.global_best_position
    }

    /// The swarm-wide best is a number and is at most every personal best.
    pub open spec fn wf(&self) -> bool {
        &&& !is_nan(self.spec_best_score())
        &&& forall|i: int|
            0 <= i < self.spec_particles().len() ==> le(
                self.spec_best_score(),
                #[trigger] self.spec_particles()[i].best_score,
            )
    }

    /// `next` is what one sweep may make of `self`, as far as the bests go.
    pub open spec fn sweeps_to(&self, next: Self) -> bool {
        swept(
            self.spec_particles(),
            next.spec_particles(),
            (self.spec_best_score(), self.spec_best_position()),
            (next.spec_best_score(), next.spec_best_position()),
        )
    }

    /// A swarm of one fresh particle per entry of `positions`, in that order,
    /// whose best solution is positive infinity at `zero`.
    pub fn new(positions: Vec<V>, zero: V) -> (w: Self)
        ensures
            w.wf(),
            w.spec_particles().len() == positions@.len(),
            forall|i: int|
                0 <= i < positions@.len() ==> #[trigger] w.spec_particles()[i] == spawned(
                    positions@[i],
                    zero,
                ),
            w.spec_best_score() == INFINITY_BITS,
            w.spec_best_position() == zero,
    {
        let mut particles: Vec<Particle<V>> = Vec::new();
        let mut i: usize = 0;
        while i < positions.len()
            invariant
                i <= positions@.len(),
                particles@.len() == i,
                forall|j: int| 0 <= j < i ==> #[trigger] particles@[j] == spawned(positions@[j], zero),
            decreases positions@.len() - i,
        {
            particles.push(Particle::new(positions[i], zero));
            i += 1;
        }
        ParticleWorld { particles, global_best_position: zero, global_best_score: INFINITY_BITS }
    }

    /// The particles, in sweep order.
    pub fn particles(&self) -> (r: &Vec<Particle<V>>)
        ensures
            r@ == self.spec_particles(),
    {
        &self.particles
    }

    /// The best score seen so far and where it was seen.
    pub fn best_solution(&self) -> (r: (u32, V))
        ensures
            r == (self.spec_best_score(), self.spec_best_position()),
    {
        (self.global_best_score, self.global_best_position)
    }

    /// One sweep over the particles in order. Each particle moves to
    /// `advance(position, speed)`; its new position is scored by `scorer`
    /// (a binary32 bit pattern, lower is better); a strictly lower score
    /// replaces its personal best and then, if strictly lower again, the
    /// swarm-wide best; last its velocity becomes
    /// `steer(speed, position, best_position, swarm_best_position)`, with the
    /// bests as they stand after this particle was scored.
    pub fn step<A, S, G>(&mut self, advance: A, scorer: S, steer: G)
        where
            A: Fn(V, V) -> V,
            S: Fn(V) -> u32,
            G: Fn(V, V, V, V) -> V,
        requires
            old(self).wf(),
            forall|p: V, v: V| advance.requires((p, v)),
            forall|p: V| scorer.requires((p,)),
            forall|v: V, p: V, b: V, g: V| steer.requires((v, p, b, g)),
        ensures
            final(self).wf(),
            old(self).sweeps_to(*final(self)),
            forall|i: int|
                0 <= i < old(self).spec_particles().len() ==> advance.ensures(
                    (old(self).spec_particles()[i].position, old(self).spec_particles()[i].speed),
                    (#[trigger] final(self).spec_particles()[i]).position,
                ),
            forall|i: int|
                0 <= i < old(self).spec_particles().len() ==> scored(
                    scorer,
                    old(self).spec_particles()[i],
                    #[trigger] final(self).spec_particles()[i],
                ),
            forall|i: int|
                0 <= i < old(self).spec_particles().len() ==> steer.ensures(
                    (
                        old(self).spec_particles()[i].speed,
                        (#[trigger] final(self).spec_particles()[i]).position,
                        final(self).spec_particles()[i].best_position,
                        global_after(
                            old(self).spec_particles(),
                            final(self).spec_particles(),
                            (old(self).spec_best_score(), old(self).spec_best_position()),
                            i + 1,
                        ).1,
                    ),
                    final(self).spec_particles()[i].speed,
                ),
    {
        let ghost olds = self.particles@;
        let ghost start = (self.global_best_score, self.global_best_position);
        let n = self.particles.len();
        let mut i: usize = 0;
        while i < n
            invariant
                n == self.particles@.len() == olds.len(),
                i <= n,
                forall|p: V, v: V| advance.requires((p, v)),
                forall|p: V| scorer.requires((p,)),
                forall|v: V, p: V, b: V, g: V| steer.requires((v, p, b, g)),
                forall|j: int| i <= j < n ==> #[trigger] self.particles@[j] == olds[j],
                forall|j: int| 0 <= j < i ==> kept_or_improved(olds[j], #[trigger] self.particles@[j]),
                (self.global_best_score, self.global_best_position) == global_after(
                    olds,
                    self.particles@,
                    start,
                    i as int,
                ),
                forall|j: int|
                    0 <= j < i ==> advance.ensures(
                        (olds[j].position, olds[j].speed),
                        (#[trigger] self.particles@[j]).position,
                    ),
                forall|j: int|
                    0 <= j < i ==> scored(scorer, olds[j], #[trigger] self.particles@[j]),
                forall|j: int|
                    0 <= j < i ==> steer.ensures(
                        (
                            olds[j].speed,
                            (#[trigger] self.particles@[j]).position,
                            self.particles@[j].best_position,
                            global_after(olds, self.particles@, start, j + 1).1,
                        ),
                        self.particles@[j].speed,
                    ),
            decreases n - i,
        {
            let speed = self.particles[i].speed;
            let position = advance(self.particles[i].position, speed);
            let score = scorer(position);
            let mut best_position = self.particles[i].best_position;
            let mut best_score = self.particles[i].best_score;
            if less_than(score, best_score) {
                best_position = position;
                best_score = score;
                if less_than(score, self.global_best_score) {
                    self.global_best_position = position;
                    self.global_best_score = score;
                }
            }
            let new_speed = steer(speed, position, best_position, self.global_best_position);
            let ghost before = self.particles@;
            self.particles.set(
                i,
                Particle { position: position, speed: new_speed, best_position, best_score },
            );
            proof {
                let after = self.particles@;
                assert(rescored(olds[i as int], position, score) == (best_score, best_position));
                lemma_global_after_prefix(olds, before, after, start, i as int);
                assert forall|j: int| 0 <= j < i implies #[trigger] global_after(
                    olds,
                    after,
                    start,
                    j + 1,
                ) == global_after(olds, before, start, j + 1) by {
                    lemma_global_after_prefix(olds, before, after, start, j + 1);
                }
                assert forall|j: int| 0 <= j < i implies scored(
                    scorer,
                    olds[j],
                    #[trigger] after[j],
                ) by {
                    assert(after[j] == before[j]);
                }
                assert(scorer.ensures((after[i as int].position,), score));
                assert(scored(scorer, olds[i as int], after[i as int]));
            }
            i += 1;
        }
        proof {
            lemma_global_after_bounds(olds, self.particles@, start, n as int);
        }
    }
}

/// Each world of `worlds` is what one sweep made of the one before it.
pub open spec fn is_run<V: Copy>(worlds: Seq<ParticleWorld<V>>) -> bool {
    forall|t: int| 0 < t < worlds.len() ==> worlds[t - 1].sweeps_to(#[trigger] worlds[t])
}

/// A sweep keeps the swarm-wide best at or below every personal best.
pub proof fn lemma_sweep_keeps_swarm_best_lowest<V: Copy>(w: ParticleWorld<V>, next: ParticleWorld<V>)
    requires
        w.wf(),
        w.sweeps_to(next),
    ensures
        next.wf(),
{
    let start = (w.spec_best_score(), w.spec_best_position());
    let n = w.spec_particles().len() as int;
    lemma_global_after_bounds(w.spec_particles(), next.spec_particles(), start, n);
}

/// However many sweeps follow a well-formed swarm, the swarm-wide best stays
/// at or below every particle's personal best.
pub proof fn lemma_swarm_best_lowest_throughout<V: Copy>(worlds: Seq<ParticleWorld<V>>)
    requires
        worlds.len() > 0,
        worlds[0].wf(),
        is_run(worlds),
    ensures
        forall|t: int, i: int|
            0 <= t < worlds.len() && 0 <= i < worlds[t].spec_particles().len() ==> le(
                worlds[t].spec_best_score(),
                #[trigger] worlds[t].spec_particles()[i].best_score,
            ),
{
    lemma_run_wf(worlds, worlds.len() - 1);
    assert forall|t: int, i: int|
        0 <= t < worlds.len() && 0 <= i < worlds[t].spec_particles().len() implies le(
        worlds[t].spec_best_score(),
        #[trigger] worlds[t].spec_particles()[i].best_score,
    ) by {
        assert(worlds[t].wf());
    }
}

/// Every world of a run from a well-formed swarm is well formed.
proof fn lemma_run_wf<V: Copy>(worlds: Seq<ParticleWorld<V>>, t: int)
    requires
        0 <= t < worlds.len(),
        worlds[0].wf(),
        is_run(worlds),
    ensures
        forall|u: int| 0 <= u <= t ==> #[trigger] worlds[u].wf(),
    decreases t,
{
    if t > 0 {
        lemma_run_wf(worlds, t - 1);
        assert(worlds[t - 1].sweeps_to(worlds[t]));
        lemma_sweep_keeps_swarm_best_lowest(worlds[t - 1], worlds[t]);
    }
}

/// Across any number of sweeps of a well-formed swarm, no particle's personal
/// best score ever rises.
pub proof fn lemma_personal_best_never_rises<V: Copy>(
    worlds: Seq<ParticleWorld<V>>,
    i: int,
    k: int,
    l: int,
)
    requires
        0 <= k <= l < worlds.len(),
        worlds[0].wf(),
        is_run(worlds),
        0 <= i < worlds[0].spec_particles().len(),
    ensures
        i < worlds[l].spec_particles().len(),
        le(worlds[l].spec_particles()[i].best_score, worlds[k].spec_particles()[i].best_score),
    decreases l - k,
{
    lemma_run_wf(worlds, l);
    lemma_run_length(worlds, l);
    if l == k {
        assert(worlds[k].wf());
        assert(le(worlds[k].spec_best_score(), worlds[k].spec_particles()[i].best_score));
    } else {
        lemma_personal_best_never_rises(worlds, i, k, l - 1);
        assert(worlds[l - 1].sweeps_to(worlds[l]));
        assert(kept_or_improved(worlds[l - 1].spec_particles()[i], worlds[l].spec_particles()[i]));
        assert(worlds[l - 1].wf());
        assert(le(worlds[l - 1].spec_best_score(), worlds[l - 1].spec_particles()[i].best_score));
    }
}

/// A sweep keeps the number of particles.
proof fn lemma_run_length<V: Copy>(worlds: Seq<ParticleWorld<V>>, t: int)
    requires
        0 <= t < worlds.len(),
        is_run(worlds),
    ensures
        forall|u: int|
            0 <= u <= t ==> (#[trigger] worlds[u].spec_particles()).len()
                == worlds[0].spec_particles().len(),
    decreases t,
{
    if t > 0 {
        lemma_run_length(worlds, t - 1);
        assert(worlds[t - 1].sweeps_to(worlds[t]));
    }
}

/// A swarm without particles keeps its best solution, whatever is swept.
pub proof fn lemma_empty_swarm_keeps_best<V: Copy>(worlds: Seq<ParticleWorld<V>>)
    requires
        worlds.len() > 0,
        worlds[0].spec_particles().len() == 0,
        is_run(worlds),
    ensures
        forall|t: int|
            0 <= t < worlds.len() ==> (#[trigger] worlds[t].spec_best_score()
                == worlds[0].spec_best_score() && worlds[t].spec_best_position()
                == worlds[0].spec_best_position()),
{
    lemma_run_length(worlds, worlds.len() - 1);
    assert forall|t: int| 0 <= t < worlds.len() implies (#[trigger] worlds[t].spec_best_score()
        == worlds[0].spec_best_score() && worlds[t].spec_best_position()
        == worlds[0].spec_best_position()) by {
        lemma_empty_run_prefix(worlds, t);
    }
}

/// The step of `lemma_empty_swarm_keeps_best`, by induction on the run.
proof fn lemma_empty_run_prefix<V: Copy>(worlds: Seq<ParticleWorld<V>>, t: int)
    requires
        0 <= t < worlds.len(),
        worlds[0].spec_particles().len() == 0,
        is_run(worlds),
    ensures
        worlds[t].spec_best_score() == worlds[0].spec_best_score(),
        worlds[t].spec_best_position() == worlds[0].spec_best_position(),
    decreases t,
{
    if t > 0 {
        lemma_empty_run_prefix(worlds, t - 1);
        lemma_run_length(worlds, t - 1);
        assert(worlds[t - 1].sweeps_to(worlds[t]));
    }
}

} // verus!
