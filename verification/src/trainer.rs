//! The evolutionary optimizer. It keeps a population of brains of fixed
//! size, scores each against one shared food layout, ranks them by fitness
//! with a stable tie-break, keeps the best quarter as the breeding pool, and
//! refills the population with children of random pool parents — uniform
//! crossover, then mutation — always reserving the first slot for the best
//! brain ever seen, carried over unchanged. The best-ever fitness is updated
//! on strict improvement only, so it never decreases.

use vstd::prelude::*;
use crate::rng::{Rng64, sm_next, spec_draw_in};
use crate::brain::{Brain, SPEED_MAX_FX, SPEED_MIN_FX, brain_valid, spec_crossover, spec_mutate};
use crate::model::{Model, model_valid};
use crate::sim::{fitness_of, spec_fitness};
use crate::world::{Food, foods_valid, lemma_total_value_bound, total_value};

verus! {

/// How many brains every generation holds.
pub const POP_SIZE: usize = 50;

/// How many of the best brains breed: the top quarter of the population,
/// rounded down.
pub const POOL_SIZE: usize = 12;

/// How many generations a reference training run iterates.
pub const GENERATIONS: usize = 50;

/// Smallest `food_attraction` the initial population draws (`0.5`); the
/// initial ranges are tighter than the hard bounds.
pub const INIT_FA_MIN_FX: i64 = 500_000;

/// Largest `food_attraction` the initial population draws (`1.0`).
pub const INIT_FA_MAX_FX: i64 = 1_000_000;

/// Smallest `life_threshold` the initial population draws (`0.2`).
pub const INIT_LT_MIN_FX: i64 = 200_000;

/// Largest `life_threshold` the initial population draws (`0.8`).
pub const INIT_LT_MAX_FX: i64 = 800_000;

/// The brain a fresh population slot draws: each parameter uniform over its
/// initial range, three draws in field order.
pub open spec fn spec_random_brain(s: u64) -> (Brain, u64) {
    let fa = spec_draw_in(s, INIT_FA_MIN_FX as int, INIT_FA_MAX_FX as int);
    let s1 = sm_next(s);
    let sp = spec_draw_in(s1, SPEED_MIN_FX as int, SPEED_MAX_FX as int);
    let s2 = sm_next(s1);
    let lt = spec_draw_in(s2, INIT_LT_MIN_FX as int, INIT_LT_MAX_FX as int);
    let s3 = sm_next(s2);
    (Brain { food_attraction: fa as i64, speed_factor: sp as i64, life_threshold: lt as i64 }, s3)
}

/// The first `n` brains of a fresh population, oldest first, and the random
/// state left after drawing them.
pub open spec fn spec_init_pop(s: u64, n: nat) -> (Seq<Brain>, u64)
    decreases n,
{
    if n == 0 {
        (Seq::empty(), s)
    } else {
        let prev = spec_init_pop(s, (n - 1) as nat);
        let b = spec_random_brain(prev.1);
        (prev.0.push(b.0), b.1)
    }
}

/// The fitness of every brain of the population, in population order, and
/// the random state after all the evaluation runs.
pub open spec fn spec_eval_all(pop: Seq<Brain>, foods: Seq<Food>, s: u64) -> (Seq<i64>, u64)
    decreases pop.len(),
{
    if pop.len() == 0 {
        (Seq::empty(), s)
    } else {
        let prev = spec_eval_all(pop.drop_last(), foods, s);
        let f = spec_fitness(pop.last(), foods, prev.1);
        (prev.0.push(f.0), f.1)
    }
}

/// Whether index `a` ranks strictly before index `b`: higher fitness first,
/// and the earlier population index first among equal fitnesses.
pub open spec fn rank_before(fits: Seq<i64>, a: usize, b: usize) -> bool {
    ||| fits[a as int] > fits[b as int]
    ||| (fits[a as int] == fits[b as int] && a < b)
}

/// Inserting an index into an already ranked list: it passes every index it
/// does not outrank and lands in front of the first one it does.
pub open spec fn spec_insert_ranked(fits: Seq<i64>, r: Seq<usize>, idx: usize) -> Seq<usize>
    decreases r.len(),
{
    if r.len() == 0 {
        seq![idx]
    } else if rank_before(fits, idx, r[0]) {
        seq![idx] + r
    } else {
        seq![r[0]] + spec_insert_ranked(fits, r.drop_first(), idx)
    }
}

/// The ranking of the first `n` indices, built by insertion in index order.
pub open spec fn spec_ranking_upto(fits: Seq<i64>, n: nat) -> Seq<usize>
    decreases n,
{
    if n == 0 {
        Seq::empty()
    } else {
        spec_insert_ranked(fits, spec_ranking_upto(fits, (n - 1) as nat), (n - 1) as usize)
    }
}

/// The selection ranking: every population index, ordered by fitness
/// descending with the original index order as the tie-break.
pub open spec fn spec_ranking(fits: Seq<i64>) -> Seq<usize> {
    spec_ranking_upto(fits, fits.len())
}

/// `spec_insert_ranked` is the plain sequence insertion at the scan
/// position: the first place whose occupant the new index outranks.
proof fn lemma_insert_ranked_at(fits: Seq<i64>, r: Seq<usize>, idx: usize, p: int)
    requires
        0 <= p <= r.len(),
        forall|k: int| 0 <= k < p ==> !rank_before(fits, idx, #[trigger] r[k]),
        p < r.len() ==> rank_before(fits, idx, r[p]),
    ensures
        spec_insert_ranked(fits, r, idx) == r.insert(p, idx),
    decreases r.len(),
{
    if r.len() == 0 {
        assert(spec_insert_ranked(fits, r, idx) =~= r.insert(0, idx));
    } else if rank_before(fits, idx, r[0]) {
        assert(p == 0);
        assert(seq![idx] + r =~= r.insert(0, idx));
    } else {
        assert(p >= 1);
        lemma_insert_ranked_at(fits, r.drop_first(), idx, p - 1);
        r.insert_ensures(p, idx);
        r.drop_first().insert_ensures(p - 1, idx);
        assert(seq![r[0]] + r.drop_first().insert(p - 1, idx) =~= r.insert(p, idx));
    }
}

/// Ranks all indices of a fitness list: fitness descending, equal fitnesses
/// in index order. The result is `spec_ranking`; it holds each index below
/// the list's length, in strict rank order.
pub fn select_ranking(fits: &Vec<i64>) -> (r: Vec<usize>)
    ensures
        r@ == spec_ranking(fits@),
        r@.len() == fits@.len(),
        forall|k: int| 0 <= k < r@.len() ==> (#[trigger] r@[k]) < fits@.len(),
        forall|k1: int, k2: int|
            0 <= k1 < k2 < r@.len() ==> rank_before(fits@, #[trigger] r@[k1], #[trigger] r@[k2]),
{
    let mut r: Vec<usize> = Vec::new();
    let mut i: usize = 0;
    while i < fits.len()
        invariant
            0 <= i <= fits.len(),
            r@ == spec_ranking_upto(fits@, i as nat),
            r@.len() == i,
            forall|k: int| 0 <= k < r@.len() ==> (#[trigger] r@[k]) < i,
            forall|k1: int, k2: int|
                0 <= k1 < k2 < r@.len() ==> rank_before(
                    fits@,
                    #[trigger] r@[k1],
                    #[trigger] r@[k2],
                ),
        decreases fits.len() - i,
    {
        let mut p: usize = 0;
        while p < r.len() && fits[r[p]] >= fits[i]
            invariant
                0 <= p <= r.len(),
                r@.len() == i < fits@.len(),
                forall|k: int| 0 <= k < r@.len() ==> (#[trigger] r@[k]) < i,
                forall|k: int| 0 <= k < p ==> !rank_before(fits@, i as usize, #[trigger] r@[k]),
            decreases r.len() - p,
        {
            p = p + 1;
        }
        let ghost old_r = r@;
        proof {
            lemma_insert_ranked_at(fits@, r@, i as usize, p as int);
            old_r.insert_ensures(p as int, i as usize);
        }
        r.insert(p, i);
        proof {
            assert forall|k1: int, k2: int| 0 <= k1 < k2 < r@.len() implies rank_before(
                fits@,
                #[trigger] r@[k1],
                #[trigger] r@[k2],
            ) by {
                if k2 < p {
                    assert(r@[k1] == old_r[k1] && r@[k2] == old_r[k2]);
                } else if k1 < p && k2 == p {
                    assert(r@[k1] == old_r[k1] && r@[k2] == i as usize);
                    assert(!rank_before(fits@, i as usize, old_r[k1]));
                } else if k1 < p && k2 > p {
                    assert(r@[k1] == old_r[k1] && r@[k2] == old_r[k2 - 1]);
                } else if k1 == p {
                    assert(r@[k1] == i as usize && r@[k2] == old_r[k2 - 1]);
                    assert(rank_before(fits@, i as usize, old_r[p as int]));
                } else {
                    assert(r@[k1] == old_r[k1 - 1] && r@[k2] == old_r[k2 - 1]);
                }
            }
        }
        i = i + 1;
    }
    r
}

/// `k` children bred out of the pool: for each, two parents drawn uniformly
/// with replacement, a uniform crossover, then mutation; two draws, then the
/// crossover's and mutation's own draws, per child.
pub open spec fn spec_breed(pool: Seq<Brain>, s: u64, k: nat) -> (Seq<Brain>, u64)
    decreases k,
{
    if k == 0 {
        (Seq::empty(), s)
    } else {
        let prev = spec_breed(pool, s, (k - 1) as nat);
        let i1 = spec_draw_in(prev.1, 0, pool.len() - 1);
        let s1 = sm_next(prev.1);
        let i2 = spec_draw_in(s1, 0, pool.len() - 1);
        let s2 = sm_next(s1);
        let c = spec_crossover(pool[i1], pool[i2], s2);
        let m = spec_mutate(c.0, c.1);
        (prev.0.push(m.0), m.1)
    }
}

/// Everything one generation changes, as a function of the old population,
/// the best seen so far, the layout and the random state: the fitnesses are
/// taken, the best is updated on strict improvement, the ranking's top
/// quarter breeds, and the new population is the updated best brain followed
/// by the children.
pub open spec fn spec_generation(
    pop: Seq<Brain>,
    best_b: Brain,
    best_f: i64,
    foods: Seq<Food>,
    s: u64,
) -> (Seq<Brain>, Brain, i64, u64) {
    let ev = spec_eval_all(pop, foods, s);
    let fits = ev.0;
    let top = spec_ranking(fits)[0];
    let improved = fits[top as int] > best_f;
    let nb = if improved {
        pop[top as int]
    } else {
        best_b
    };
    let nf = if improved {
        fits[top as int]
    } else {
        best_f
    };
    let pool = Seq::new(POOL_SIZE as nat, |k: int| pop[spec_ranking(fits)[k] as int]);
    let br = spec_breed(pool, ev.1, (pop.len() - 1) as nat);
    (seq![nb] + br.0, nb, nf, br.1)
}

/// The optimizer's state after `n` generations from the given start.
pub open spec fn spec_train(
    pop: Seq<Brain>,
    best_b: Brain,
    best_f: i64,
    foods: Seq<Food>,
    s: u64,
    n: nat,
) -> (Seq<Brain>, Brain, i64, u64)
    decreases n,
{
    if n == 0 {
        (pop, best_b, best_f, s)
    } else {
        let prev = spec_train(pop, best_b, best_f, foods, s, (n - 1) as nat);
        spec_generation(prev.0, prev.1, prev.2, foods, prev.3)
    }
}

/// The optimizer's whole state: the shared layout, the current population,
/// the best brain and fitness seen so far, and the random source.
pub struct Trainer {
    /// The food layout every evaluation of this run shares.
    pub foods: Vec<Food>,
    /// The current generation's brains.
    pub population: Vec<Brain>,
    /// The best brain any generation has produced so far.
    pub best_brain: Brain,
    /// Its fitness; `-1` until the first generation has been scored.
    pub best_fitness: i64,
    /// The run's random source.
    pub rng: Rng64,
}

/// The trainer invariant: a full population of valid brains over a valid
/// layout, and a best fitness that no run can overshoot.
pub open spec fn trainer_valid(t: Trainer) -> bool {
    &&& foods_valid(t.foods@)
    &&& t.population@.len() == POP_SIZE
    &&& forall|i: int| 0 <= i < t.population@.len() ==> brain_valid(#[trigger] t.population@[i])
    &&& brain_valid(t.best_brain)
    &&& -1 <= t.best_fitness <= total_value(t.foods@)
}

/// Draws one fresh brain for the initial population.
pub fn random_brain(rng: &mut Rng64) -> (b: Brain)
    ensures
        b == spec_random_brain(old(rng).state).0,
        final(rng).state == spec_random_brain(old(rng).state).1,
        brain_valid(b),
{
    let fa = rng.next_in(INIT_FA_MIN_FX, INIT_FA_MAX_FX);
    let sp = rng.next_in(SPEED_MIN_FX, SPEED_MAX_FX);
    let lt = rng.next_in(INIT_LT_MIN_FX, INIT_LT_MAX_FX);
    Brain { food_attraction: fa, speed_factor: sp, life_threshold: lt }
}

impl Trainer {
    /// A trainer over the given layout and seed, with a fresh random
    /// population and no best recorded yet.
    pub fn new(foods: Vec<Food>, seed: u64) -> (t: Trainer)
        requires
            foods_valid(foods@),
        ensures
            trainer_valid(t),
            t.foods@ == foods@,
            t.population@ == spec_init_pop(seed, POP_SIZE as nat).0,
            t.rng.state == spec_init_pop(seed, POP_SIZE as nat).1,
            t.best_brain == t.population@[0],
            t.best_fitness == -1,
    {
        proof {
            lemma_total_value_bound(foods@);
        }
        let mut rng = Rng64::new(seed);
        let mut population: Vec<Brain> = Vec::new();
        let mut i: usize = 0;
        while i < POP_SIZE
            invariant
                0 <= i <= POP_SIZE,
                population@.len() == i,
                (population@, rng.state) == spec_init_pop(seed, i as nat),
                forall|k: int| 0 <= k < i ==> brain_valid(#[trigger] population@[k]),
            decreases POP_SIZE - i,
        {
            let b = random_brain(&mut rng);
            population.push(b);
            i = i + 1;
        }
        let best_brain = population[0];
        Trainer { foods, population, best_brain, best_fitness: -1, rng }
    }

    /// Scores every brain of the population against the shared layout, in
    /// population order, through the run model. Only the random source
    /// changes.
    fn eval_all(&mut self) -> (fits: Vec<i64>)
        requires
            trainer_valid(*old(self)),
        ensures
            (fits@, final(self).rng.state) == spec_eval_all(
                old(self).population@,
                old(self).foods@,
                old(self).rng.state,
            ),
            fits@.len() == old(self).population@.len(),
            forall|i: int|
                0 <= i < fits@.len() ==> 0 <= #[trigger] fits@[i] <= total_value(old(self).foods@),
            final(self).foods@ == old(self).foods@,
            final(self).population@ == old(self).population@,
            final(self).best_brain == old(self).best_brain,
            final(self).best_fitness == old(self).best_fitness,
            trainer_valid(*final(self)),
    {
        let ghost s0 = self.rng.state;
        let mut fits: Vec<i64> = Vec::new();
        let mut i: usize = 0;
        while i < self.population.len()
            invariant
                0 <= i <= self.population@.len(),
                trainer_valid(*self),
                self.foods@ == old(self).foods@,
                self.population@ == old(self).population@,
                self.best_brain == old(self).best_brain,
                self.best_fitness == old(self).best_fitness,
                fits@.len() == i,
                (fits@, self.rng.state) == spec_eval_all(
                    self.population@.take(i as int),
                    self.foods@,
                    s0,
                ),
                forall|k: int|
                    0 <= k < fits@.len() ==> 0 <= #[trigger] fits@[k] <= total_value(self.foods@),
            decreases self.population@.len() - i,
        {
            proof {
                assert(self.population@.take(i + 1).drop_last() =~= self.population@.take(
                    i as int,
                ));
            }
            let brain = self.population[i];
            let f = fitness_of(&brain, &self.foods, &mut self.rng);
            fits.push(f);
            i = i + 1;
        }
        proof {
            assert(self.population@.take(self.population@.len() as int) =~= self.population@);
        }
        fits
    }

    /// Runs one generation: evaluate, update the best on strict
    /// improvement, select the top quarter, breed the rest. The population
    /// size never changes, the best-ever fitness never decreases, and the
    /// new population carries the best brain in its first slot.
    pub fn step_generation(&mut self)
        requires
            trainer_valid(*old(self)),
        ensures
            trainer_valid(*final(self)),
            (final(self).population@, final(self).best_brain, final(self).best_fitness,
            final(self).rng.state) == spec_generation(
                old(self).population@,
                old(self).best_brain,
                old(self).best_fitness,
                old(self).foods@,
                old(self).rng.state,
            ),
            final(self).foods@ == old(self).foods@,
            final(self).population@.len() == old(self).population@.len(),
            final(self).best_fitness >= old(self).best_fitness,
            final(self).population@[0] == final(self).best_brain,
    {
        let ghost pop0 = self.population@;
        let ghost s0 = self.rng.state;
        let fits = self.eval_all();
        let ghost fitseq = fits@;
        let ranking = select_ranking(&fits);
        let top = ranking[0];
        if fits[top] > self.best_fitness {
            self.best_brain = self.population[top];
            self.best_fitness = fits[top];
        }
        let ghost nb = self.best_brain;
        let ghost nf = self.best_fitness;
        let mut pool: Vec<Brain> = Vec::new();
        let mut j: usize = 0;
        while j < POOL_SIZE
            invariant
                0 <= j <= POOL_SIZE,
                trainer_valid(*self),
                self.foods@ == old(self).foods@,
                self.population@ == pop0,
                self.best_brain == nb,
                self.best_fitness == nf,
                pool@.len() == j,
                ranking@ == spec_ranking(fitseq),
                ranking@.len() == POP_SIZE,
                forall|k: int| 0 <= k < ranking@.len() ==> (#[trigger] ranking@[k]) < POP_SIZE,
                forall|k: int| 0 <= k < j ==> pool@[k] == pop0[#[trigger] ranking@[k] as int],
                forall|k: int| 0 <= k < j ==> brain_valid(#[trigger] pool@[k]),
            decreases POOL_SIZE - j,
        {
            pool.push(self.population[ranking[j]]);
            j = j + 1;
        }
        proof {
            assert(pool@ =~= Seq::new(
                POOL_SIZE as nat,
                |k: int| pop0[spec_ranking(fitseq)[k] as int],
            ));
        }
        let ghost s1 = self.rng.state;
        let mut children: Vec<Brain> = Vec::new();
        let mut k: usize = 0;
        while k < POP_SIZE - 1
            invariant
                0 <= k <= POP_SIZE - 1,
                trainer_valid(*self),
                self.foods@ == old(self).foods@,
                self.population@ == pop0,
                self.best_brain == nb,
                self.best_fitness == nf,
                pool@.len() == POOL_SIZE,
                forall|q: int| 0 <= q < pool@.len() ==> brain_valid(#[trigger] pool@[q]),
                children@.len() == k,
                (children@, self.rng.state) == spec_breed(pool@, s1, k as nat),
                forall|q: int| 0 <= q < k ==> brain_valid(#[trigger] children@[q]),
            decreases POP_SIZE - 1 - k,
        {
            let i1 = rng_index(&mut self.rng);
            let i2 = rng_index(&mut self.rng);
            let mut child = Brain::crossover(&pool[i1], &pool[i2], &mut self.rng);
            child.mutate(&mut self.rng);
            children.push(child);
            k = k + 1;
        }
        let ghost kids = children@;
        let mut next: Vec<Brain> = Vec::new();
        next.push(self.best_brain);
        let mut c: usize = 0;
        while c < children.len()
            invariant
                0 <= c <= children@.len(),
                children@ == kids,
                self.best_brain == nb,
                next@ == seq![nb] + kids.take(c as int),
            decreases children@.len() - c,
        {
            proof {
                assert(kids.take(c + 1).drop_last() =~= kids.take(c as int));
                assert((seq![nb] + kids.take(c + 1)).drop_last() =~= seq![nb] + kids.take(
                    c as int,
                ));
            }
            next.push(children[c]);
            c = c + 1;
        }
        proof {
            assert(kids.take(kids.len() as int) =~= kids);
        }
        self.population = next;
    }

    /// The record a finished run emits: the best brain ever seen and its
    /// fitness — once a generation has been scored; before that there is
    /// nothing to persist.
    pub fn best_model(&self) -> (m: Option<Model>)
        requires
            trainer_valid(*self),
        ensures
            m matches Some(mm) ==> mm == (Model { brain: self.best_brain, fitness: self.best_fitness })
                && model_valid(mm),
            m is Some <==> self.best_fitness >= 0,
    {
        if self.best_fitness < 0 {
            return None;
        }
        proof {
            lemma_total_value_bound(self.foods@);
            assert(self.foods@.len() * 1_000_000_000 <= 10_000_000_000_000) by (nonlinear_arith)
                requires
                    0 <= self.foods@.len() <= 10_000,
            ;
        }
        Some(Model { brain: self.best_brain, fitness: self.best_fitness })
    }

    /// Runs `generations` generations in sequence: the state the training
    /// model reaches after that many generations. The best-ever fitness
    /// never decreases along the way.
    pub fn run(&mut self, generations: usize)
        requires
            trainer_valid(*old(self)),
        ensures
            trainer_valid(*final(self)),
            (final(self).population@, final(self).best_brain, final(self).best_fitness,
            final(self).rng.state) == spec_train(
                old(self).population@,
                old(self).best_brain,
                old(self).best_fitness,
                old(self).foods@,
                old(self).rng.state,
                generations as nat,
            ),
            final(self).best_fitness >= old(self).best_fitness,
            final(self).foods@ == old(self).foods@,
            final(self).population@.len() == old(self).population@.len(),
            generations > 0 ==> final(self).population@[0] == final(self).best_brain,
    {
        let mut g: usize = 0;
        while g < generations
            invariant
                0 <= g <= generations,
                g > 0 ==> self.population@[0] == self.best_brain,
                trainer_valid(*self),
                (self.population@, self.best_brain, self.best_fitness, self.rng.state)
                    == spec_train(
                    old(self).population@,
                    old(self).best_brain,
                    old(self).best_fitness,
                    old(self).foods@,
                    old(self).rng.state,
                    g as nat,
                ),
                self.best_fitness >= old(self).best_fitness,
                self.foods@ == old(self).foods@,
                self.population@.len() == old(self).population@.len(),
            decreases generations - g,
        {
            self.step_generation();
            g = g + 1;
        }
    }
}

/// Draws one breeding-pool index.
fn rng_index(rng: &mut Rng64) -> (i: usize)
    ensures
        i as int == spec_draw_in(old(rng).state, 0, POOL_SIZE - 1),
        final(rng).state == sm_next(old(rng).state),
        i < POOL_SIZE,
{
    let v = rng.next_in(0, (POOL_SIZE as i64) - 1);
    v as usize
}

} // verus!
