use vstd::prelude::*;

use crate::rng::rand_below;
use crate::select::first_max_index;
use crate::select::is_first_max;
use crate::select::lemma_first_max_index_is_first_max;
use crate::select::lemma_first_max_unique;
use crate::select::lemma_select_seq_elements;
use crate::select::select_seq;

verus! {

/// Probabilities are fixed-point fractions of this denominator: a field set
/// to `PROB_ONE` means "always" (probability 1), `0` means "never", and
/// `PROB_ONE / 2` means one draw in two.
pub const PROB_ONE: usize = 1_000_000;

/// How a call can fail.
#[derive(Clone, Copy, Debug, PartialEq, Eq, Structural)]
pub enum GeneticError {
    /// The configuration is unusable: the population size is zero, or a
    /// probability exceeds `PROB_ONE`.
    Configuration,
    /// An operation that needs at least one agent was given none.
    EmptyInput,
}

/// An evolutionary optimizer: the four scalar parameters of the generational
/// loop together with the four caller-supplied operators it orchestrates.
pub struct Genetic<FA, FF, FM, FC> {
    /// Population size: more agents, more accuracy, less speed.
    pub population: usize,
    /// How many generations to run; `0` returns the initial population as is.
    pub max_generation: usize,
    /// Crossover probability, as a fraction of `PROB_ONE`.
    pub pc: usize,
    /// Mutation probability, as a fraction of `PROB_ONE`.
    pub pm: usize,
    /// Returns one agent for the initial generation.
    pub get_random_agent: FA,
    /// Scores an agent; the engine maximizes this value.
    pub f_fitness: FF,
    /// Returns a perturbed variant of an agent.
    pub f_mutate: FM,
    /// Combines two parents into one offspring.
    pub f_offspring: FC,
}

/// `fv` records, position by position, a fitness value that the operator `f`
/// can return for the agents of `s`.
pub open spec fn fitness_trace<T, FF: Fn(&T) -> i64>(f: FF, s: Seq<T>, fv: Seq<i64>) -> bool {
    &&& fv.len() == s.len()
    &&& forall|j: int| 0 <= j < s.len() ==> call_ensures(f, (&s[j],), #[trigger] fv[j])
}

/// The agents of `r` beyond the members of `s` are offspring: the ordered
/// list `chosen` names the positions whose pairs produced one, and `r` holds
/// their offspring appended in that order.
pub open spec fn offspring_record<T, FC: Fn(&T, &T) -> T>(
    f: FC,
    s: Seq<T>,
    parents: Seq<usize>,
    r: Seq<T>,
    chosen: Seq<int>,
) -> bool {
    &&& parents.len() == s.len()
    &&& r.len() == s.len() + chosen.len()
    &&& forall|t: int| 0 <= t < chosen.len() ==> 0 <= #[trigger] chosen[t] < s.len()
    &&& forall|t: int|
        0 <= t < chosen.len() ==> call_ensures(
            f,
            (&s[chosen[t]], &s[parents[chosen[t]] as int]),
            #[trigger] r[s.len() + t],
        )
}

/// The agent `a` can arise within `d` rounds of the operators: it is an
/// output of the agent generator, a mutation of a derivable agent, or an
/// offspring of two derivable agents.
pub open spec fn derivable<T, FA: Fn() -> T, FM: Fn(&T) -> T, FC: Fn(&T, &T) -> T>(
    ra: FA,
    fm: FM,
    fc: FC,
    a: T,
    d: nat,
) -> bool
    decreases d,
{
    if d == 0 {
        call_ensures(ra, (), a)
    } else {
        ||| derivable(ra, fm, fc, a, (d - 1) as nat)
        ||| exists|p: T|
            #[trigger] call_ensures(fm, (&p,), a) && derivable(ra, fm, fc, p, (d - 1) as nat)
        ||| exists|p: T, q: T|
            #[trigger] call_ensures(fc, (&p, &q), a) && derivable(ra, fm, fc, p, (d - 1) as nat)
                && derivable(ra, fm, fc, q, (d - 1) as nat)
    }
}

/// An agent derivable within `d1` rounds is derivable within any later bound.
pub proof fn lemma_derivable_mono<T, FA: Fn() -> T, FM: Fn(&T) -> T, FC: Fn(&T, &T) -> T>(
    ra: FA,
    fm: FM,
    fc: FC,
    a: T,
    d1: nat,
    d2: nat,
)
    requires
        derivable(ra, fm, fc, a, d1),
        d1 <= d2,
    ensures
        derivable(ra, fm, fc, a, d2),
    decreases d2,
{
    if d1 < d2 {
        lemma_derivable_mono(ra, fm, fc, a, d1, (d2 - 1) as nat);
        assert(derivable(ra, fm, fc, a, (d2 - 1) as nat));
    }
}

impl<T, FA, FF, FM, FC> Genetic<FA, FF, FM, FC> where
    FA: Fn() -> T,
    FF: Fn(&T) -> i64,
    FM: Fn(&T) -> T,
    FC: Fn(&T, &T) -> T,
 {
    /// A configuration the generational loop can run on.
    pub open spec fn valid(&self) -> bool {
        &&& self.population >= 1
        &&& self.pc <= PROB_ONE
        &&& self.pm <= PROB_ONE
    }

    /// The caller-supplied operators accept every agent handed to them.
    pub open spec fn operators_callable(&self) -> bool {
        &&& call_requires(self.get_random_agent, ())
        &&& forall|a: T| call_requires(self.f_fitness, (&a,))
        &&& forall|a: T| call_requires(self.f_mutate, (&a,))
        &&& forall|a: T, b: T| call_requires(self.f_offspring, (&a, &b))
    }

    /// The agent `a` can arise from this configuration's operators in some
    /// number of rounds.
    pub open spec fn agent_derivable(&self, a: T) -> bool {
        exists|d: nat|
            #[trigger] derivable(self.get_random_agent, self.f_mutate, self.f_offspring, a, d)
    }

    /// Builds the initial generation: `population` independent calls to the
    /// agent generator.
    pub fn get_population(&self) -> (r: Vec<T>)
        requires
            call_requires(self.get_random_agent, ()),
        ensures
            r@.len() == self.population,
            forall|j: int|
                0 <= j < r@.len() ==> call_ensures(self.get_random_agent, (), #[trigger] r@[j]),
    {
        let mut r: Vec<T> = Vec::new();
        let mut i: usize = 0;
        while i < self.population
            invariant
                call_requires(self.get_random_agent, ()),
                i <= self.population,
                r@.len() == i,
                forall|j: int|
                    0 <= j < i ==> call_ensures(self.get_random_agent, (), #[trigger] r@[j]),
            decreases self.population - i,
        {
            let a = (self.get_random_agent)();
            r.push(a);
            i += 1;
        }
        r
    }

    /// Draws one crossover partner per position of `xg`: the partner index
    /// is uniform over the positions other than the agent's own, drawn
    /// independently (with replacement) across positions.
    pub fn generate_parents(&self, xg: &Vec<T>, rng: &mut rand::rngs::StdRng) -> (p: Vec<usize>)
        requires
            xg@.len() >= 2,
        ensures
            p@.len() == xg@.len(),
            forall|x: int| 0 <= x < p@.len() ==> #[trigger] p@[x] < xg@.len() && p@[x] != x,
    {
        let l = xg.len();
        let mut p: Vec<usize> = Vec::new();
        let mut x: usize = 0;
        while x < l
            invariant
                l == xg@.len(),
                l >= 2,
                x <= l,
                p@.len() == x,
                forall|k: int| 0 <= k < x ==> #[trigger] p@[k] < l && p@[k] != k,
            decreases l - x,
        {
            let draw = rand_below(rng, l - 1);
            let y = if draw >= x {
                draw + 1
            } else {
                draw
            };
            p.push(y);
            x += 1;
        }
        p
    }

    /// The mutation stage: every member of `xg` is independently replaced by
    /// a mutated variant of itself with probability `pm`, and kept as it is
    /// otherwise.
    pub fn mutate(&self, xg: &mut Vec<T>, rng: &mut rand::rngs::StdRng)
        requires
            forall|a: T| call_requires(self.f_mutate, (&a,)),
            self.pm <= PROB_ONE,
        ensures
            final(xg)@.len() == old(xg)@.len(),
            forall|j: int|
                0 <= j < final(xg)@.len() ==> #[trigger] final(xg)@[j] == old(xg)@[j]
                    || call_ensures(self.f_mutate, (&old(xg)@[j],), final(xg)@[j]),
            self.pm == PROB_ONE ==> forall|j: int|
                0 <= j < final(xg)@.len() ==> call_ensures(
                    self.f_mutate,
                    (&old(xg)@[j],),
                    #[trigger] final(xg)@[j],
                ),
            self.pm == 0 ==> final(xg)@ == old(xg)@,
    {
        let l = xg.len();
        let mut i: usize = 0;
        while i < l
            invariant
                forall|a: T| call_requires(self.f_mutate, (&a,)),
                self.pm <= PROB_ONE,
                l == xg@.len(),
                xg@.len() == old(xg)@.len(),
                i <= l,
                forall|j: int| i <= j < l ==> #[trigger] xg@[j] == old(xg)@[j],
                forall|j: int|
                    0 <= j < i ==> #[trigger] xg@[j] == old(xg)@[j] || call_ensures(
                        self.f_mutate,
                        (&old(xg)@[j],),
                        xg@[j],
                    ),
                self.pm == PROB_ONE ==> forall|j: int|
                    0 <= j < i ==> call_ensures(self.f_mutate, (&old(xg)@[j],), #[trigger] xg@[j]),
                self.pm == 0 ==> xg@ == old(xg)@,
            decreases l - i,
        {
            let draw = rand_below(rng, PROB_ONE);
            if draw < self.pm {
                let m = (self.f_mutate)(&xg[i]);
                xg[i] = m;
            }
            i += 1;
        }
    }

    /// Scores every agent of `u` once, in order.
    fn eval_fitness(&self, u: &Vec<T>) -> (fvec: Vec<i64>)
        requires
            forall|a: T| call_requires(self.f_fitness, (&a,)),
        ensures
            fitness_trace(self.f_fitness, u@, fvec@),
    {
        let mut fvec: Vec<i64> = Vec::new();
        let mut i: usize = 0;
        while i < u.len()
            invariant
                forall|a: T| call_requires(self.f_fitness, (&a,)),
                i <= u@.len(),
                fvec@.len() == i,
                forall|j: int|
                    0 <= j < i ==> call_ensures(self.f_fitness, (&u@[j],), #[trigger] fvec@[j]),
            decreases u@.len() - i,
        {
            let f_x = (self.f_fitness)(&u[i]);
            fvec.push(f_x);
            i += 1;
        }
        fvec
    }

    /// Linear scan for the position of the greatest fitness value; an
    /// earlier equal value is never displaced by a later one.
    fn best_of(fvec: &Vec<i64>) -> (b: usize)
        requires
            fvec@.len() > 0,
        ensures
            b as int == first_max_index(fvec@),
            is_first_max(fvec@, b as int),
    {
        let mut best_i: usize = 0;
        let mut f_best: i64 = fvec[0];
        let mut i: usize = 1;
        while i < fvec.len()
            invariant
                1 <= i <= fvec@.len(),
                best_i < i,
                fvec@[best_i as int] == f_best,
                forall|j: int| 0 <= j < i ==> fvec@[j] <= f_best,
                forall|j: int| 0 <= j < best_i ==> fvec@[j] < f_best,
            decreases fvec@.len() - i,
        {
            let f_x = fvec[i];
            if f_x > f_best {
                best_i = i;
                f_best = f_x;
            }
            i += 1;
        }
        proof {
            lemma_first_max_index_is_first_max(fvec@);
            lemma_first_max_unique(fvec@, best_i as int, first_max_index(fvec@));
        }
        best_i
    }

    /// Returns the index of the best agent of `u`: its fitness value is
    /// greatest, and among equally fit agents the earliest index wins.
    /// An empty `u` is rejected with `EmptyInput`.
    pub fn get_best(&self, u: &Vec<T>) -> (r: Result<usize, GeneticError>)
        requires
            forall|a: T| call_requires(self.f_fitness, (&a,)),
        ensures
            r is Ok <==> u@.len() > 0,
            match r {
                Ok(i) => i < u@.len() && exists|fv: Seq<i64>|
                    {
                        &&& #[trigger] fitness_trace(self.f_fitness, u@, fv)
                        &&& i == first_max_index(fv)
                        &&& is_first_max(fv, i as int)
                    },
                Err(e) => e == GeneticError::EmptyInput,
            },
    {
        if u.len() == 0 {
            return Err(GeneticError::EmptyInput);
        }
        let fvec = self.eval_fitness(u);
        let best_i = Self::best_of(&fvec);
        Ok(best_i)
    }

    /// The crossover stage: the working population starts as the current
    /// generation; for every position, with probability `pc`, the agent and
    /// its drawn partner produce one offspring, which is appended. Parents
    /// are never removed, so the result grows to at most twice the input.
    pub fn crossover(&self, xg: Vec<T>, parents: &Vec<usize>, rng: &mut rand::rngs::StdRng) -> (r:
        Vec<T>)
        requires
            forall|a: T, b: T| call_requires(self.f_offspring, (&a, &b)),
            self.pc <= PROB_ONE,
            parents@.len() == xg@.len(),
            forall|x: int| 0 <= x < parents@.len() ==> #[trigger] parents@[x] < xg@.len(),
        ensures
            r@.len() >= xg@.len(),
            r@.len() <= xg@.len() + parents@.len(),
            r@.len() <= 2 * xg@.len(),
            r@.subrange(0, xg@.len() as int) == xg@,
            exists|chosen: Seq<int>| #[trigger] offspring_record(
                self.f_offspring,
                xg@,
                parents@,
                r@,
                chosen,
            ),
            self.pc == 0 ==> r@ == xg@,
            self.pc == PROB_ONE ==> {
                &&& r@.len() == xg@.len() + parents@.len()
                &&& forall|x: int|
                    0 <= x < parents@.len() ==> call_ensures(
                        self.f_offspring,
                        (&xg@[x], &xg@[parents@[x] as int]),
                        #[trigger] r@[xg@.len() + x],
                    )
            },
    {
        let mut work = xg;
        let ghost mut chosen: Seq<int> = Seq::empty();
        let n = work.len();
        let mut x: usize = 0;
        while x < n
            invariant
                forall|a: T, b: T| call_requires(self.f_offspring, (&a, &b)),
                self.pc <= PROB_ONE,
                n == xg@.len(),
                parents@.len() == n,
                forall|k: int| 0 <= k < n ==> #[trigger] parents@[k] < n,
                x <= n,
                work@.len() == n + chosen.len(),
                chosen.len() <= x,
                work@.subrange(0, n as int) == xg@,
                forall|t: int| 0 <= t < chosen.len() ==> 0 <= #[trigger] chosen[t] < n,
                forall|t: int|
                    0 <= t < chosen.len() ==> call_ensures(
                        self.f_offspring,
                        (&xg@[chosen[t]], &xg@[parents@[chosen[t]] as int]),
                        #[trigger] work@[n + t],
                    ),
                self.pc == 0 ==> work@ == xg@,
                self.pc == PROB_ONE ==> {
                    &&& chosen.len() == x
                    &&& forall|xx: int|
                        0 <= xx < x ==> call_ensures(
                            self.f_offspring,
                            (&xg@[xx], &xg@[parents@[xx] as int]),
                            #[trigger] work@[n + xx],
                        )
                },
            decreases n - x,
        {
            let ghost pre = work@;
            proof {
                assert(pre[x as int] == pre.subrange(0, n as int)[x as int]);
                assert(pre[parents@[x as int] as int] == pre.subrange(0, n as int)[parents@[
                    x as int] as int]);
            }
            let draw = rand_below(rng, PROB_ONE);
            if draw < self.pc {
                let child = (self.f_offspring)(&work[x], &work[parents[x]]);
                work.push(child);
                proof {
                    chosen = chosen.push(x as int);
                    assert(work@ == pre.push(child));
                    assert(work@.subrange(0, n as int) =~= pre.subrange(0, n as int));
                    assert(forall|t: int|
                        0 <= t < chosen.len() - 1 ==> #[trigger] chosen[t] == chosen.drop_last()[
                        t]);
                    assert(forall|t: int|
                        0 <= t < chosen.len() - 1 ==> #[trigger] work@[n + t] == pre[n + t]);
                    assert(work@[n + chosen.len() - 1] == child);
                }
            }
            x += 1;
        }
        proof {
            assert(offspring_record(self.f_offspring, xg@, parents@, work@, chosen));
        }
        work
    }

    /// The selection stage (elitist truncation): repeatedly take the best
    /// remaining agent out of the pool `xg` — ties won by the earliest
    /// position — and append it to the next generation, until it holds
    /// `population` agents. The result is `select_seq` of the pool and a
    /// fitness trace of it.
    pub fn selection(&self, xg: &mut Vec<T>) -> (r: Vec<T>)
        requires
            forall|a: T| call_requires(self.f_fitness, (&a,)),
            old(xg)@.len() >= self.population,
        ensures
            r@.len() == self.population,
            final(xg)@.len() == old(xg)@.len() - self.population,
            exists|fv: Seq<i64>|
                {
                    &&& #[trigger] fitness_trace(self.f_fitness, old(xg)@, fv)
                    &&& r@ == select_seq(old(xg)@, fv, self.population as nat)
                },
    {
        let mut fvec = self.eval_fitness(xg);
        let ghost s0 = xg@;
        let ghost fv0 = fvec@;
        let mut r: Vec<T> = Vec::new();
        let mut i: usize = 0;
        while i < self.population
            invariant
                i <= self.population,
                s0 == old(xg)@,
                s0.len() >= self.population,
                fitness_trace(self.f_fitness, s0, fv0),
                fvec@.len() == xg@.len(),
                xg@.len() == s0.len() - i,
                r@.len() == i,
                r@ + select_seq(xg@, fvec@, (self.population - i) as nat) == select_seq(
                    s0,
                    fv0,
                    self.population as nat,
                ),
            decreases self.population - i,
        {
            let b = Self::best_of(&fvec);
            let ghost pre_s = xg@;
            let ghost pre_f = fvec@;
            let ghost pre_r = r@;
            let ghost m = (self.population - i) as nat;
            let agent = xg.remove(b);
            let _ = fvec.remove(b);
            r.push(agent);
            proof {
                assert(select_seq(pre_s, pre_f, m) == Seq::empty().push(
                    pre_s[first_max_index(pre_f)],
                ) + select_seq(
                    pre_s.remove(first_max_index(pre_f)),
                    pre_f.remove(first_max_index(pre_f)),
                    (m - 1) as nat,
                ));
                assert(r@ == pre_r.push(pre_s[b as int]));
                assert(pre_r + (Seq::empty().push(pre_s[b as int]) + select_seq(
                    xg@,
                    fvec@,
                    (m - 1) as nat,
                )) =~= r@ + select_seq(xg@, fvec@, (m - 1) as nat));
            }
            i += 1;
        }
        proof {
            assert(select_seq(xg@, fvec@, 0) == Seq::<T>::empty());
            assert(r@ + Seq::<T>::empty() =~= r@);
        }
        r
    }

    /// One full run of the optimizer: validate the configuration, build the
    /// initial generation by `population` calls to the agent generator, then
    /// `max_generation` times pair parents, cross over, mutate and select.
    /// The returned generation always holds exactly `population` agents,
    /// each of them derivable from the caller's operators, and with
    /// `max_generation` zero it is the initial generation untouched.
    /// A population size of zero or a probability above `PROB_ONE` is
    /// rejected up front with `Configuration`; a population of one has no
    /// distinct partner to pair with, so its crossover stage adds nothing.
    pub fn run(&self, rng: &mut rand::rngs::StdRng) -> (r: Result<Vec<T>, GeneticError>)
        requires
            self.operators_callable(),
        ensures
            r is Ok <==> self.valid(),
            match r {
                Ok(v) => {
                    &&& v@.len() == self.population
                    &&& forall|j: int| 0 <= j < v@.len() ==> #[trigger] self.agent_derivable(v@[j])
                    &&& self.max_generation == 0 ==> forall|j: int|
                        0 <= j < v@.len() ==> call_ensures(
                            self.get_random_agent,
                            (),
                            #[trigger] v@[j],
                        )
                },
                Err(e) => e == GeneticError::Configuration,
            },
    {
        if self.population == 0 || self.pc > PROB_ONE || self.pm > PROB_ONE {
            return Err(GeneticError::Configuration);
        }
        let mut xg = self.get_population();
        proof {
            let ghost dz: nat = 0;
            assert forall|j: int| 0 <= j < xg@.len() implies #[trigger] self.agent_derivable(
                xg@[j],
            ) by {
                assert(call_ensures(self.get_random_agent, (), xg@[j]));
                assert(derivable(self.get_random_agent, self.f_mutate, self.f_offspring, xg@[j], dz));
            }
        }
        let mut g: usize = 0;
        while g < self.max_generation
            invariant
                self.operators_callable(),
                self.valid(),
                g <= self.max_generation,
                xg@.len() == self.population,
                forall|j: int| 0 <= j < xg@.len() ==> #[trigger] self.agent_derivable(xg@[j]),
                self.max_generation == 0 ==> forall|j: int|
                    0 <= j < xg@.len() ==> call_ensures(
                        self.get_random_agent,
                        (),
                        #[trigger] xg@[j],
                    ),
            decreases self.max_generation - g,
        {
            let mut work: Vec<T> = if self.population >= 2 {
                let parents = self.generate_parents(&xg, rng);
                let ghost xgs = xg@;
                let w = self.crossover(xg, &parents, rng);
                proof {
                    self.lemma_crossover_keeps_derivable(xgs, parents@, w@);
                }
                w
            } else {
                xg
            };
            let ghost wpre = work@;
            self.mutate(&mut work, rng);
            proof {
                assert forall|k: int| 0 <= k < work@.len() implies #[trigger] self.agent_derivable(
                    work@[k],
                ) by {
                    if work@[k] == wpre[k] {
                        assert(self.agent_derivable(wpre[k]));
                    } else {
                        assert(call_ensures(self.f_mutate, (&wpre[k],), work@[k]));
                        assert(self.agent_derivable(wpre[k]));
                        let d = choose|d: nat|
                            derivable(
                                self.get_random_agent,
                                self.f_mutate,
                                self.f_offspring,
                                wpre[k],
                                d,
                            );
                        assert(derivable(
                            self.get_random_agent,
                            self.f_mutate,
                            self.f_offspring,
                            work@[k],
                            d + 1,
                        ));
                    }
                }
            }
            let ghost wsel = work@;
            xg = self.selection(&mut work);
            proof {
                let fv = choose|fv: Seq<i64>|
                    fitness_trace(self.f_fitness, wsel, fv) && xg@ == select_seq(
                        wsel,
                        fv,
                        self.population as nat,
                    );
                lemma_select_seq_elements(wsel, fv, self.population as nat);
                assert forall|j: int| 0 <= j < xg@.len() implies #[trigger] self.agent_derivable(
                    xg@[j],
                ) by {
                    let i = choose|i: int|
                        0 <= i < wsel.len() && select_seq(wsel, fv, self.population as nat)[j]
                            == wsel[i];
                    assert(xg@[j] == wsel[i]);
                    assert(self.agent_derivable(wsel[i]));
                }
            }
            g += 1;
        }
        Ok(xg)
    }

    /// After the crossover stage every agent of the result is derivable:
    /// the carried-over members were already, and each offspring arises from
    /// two of them.
    proof fn lemma_crossover_keeps_derivable(
        &self,
        xgs: Seq<T>,
        parents: Seq<usize>,
        w: Seq<T>,
    )
        requires
            forall|j: int| 0 <= j < xgs.len() ==> #[trigger] self.agent_derivable(xgs[j]),
            parents.len() == xgs.len(),
            forall|x: int| 0 <= x < parents.len() ==> #[trigger] parents[x] < xgs.len(),
            w.len() >= xgs.len(),
            w.subrange(0, xgs.len() as int) == xgs,
            exists|chosen: Seq<int>| #[trigger] offspring_record(
                self.f_offspring,
                xgs,
                parents,
                w,
                chosen,
            ),
        ensures
            forall|k: int| 0 <= k < w.len() ==> #[trigger] self.agent_derivable(w[k]),
    {
        let chosen = choose|chosen: Seq<int>|
            #[trigger] offspring_record(self.f_offspring, xgs, parents, w, chosen);
        assert forall|k: int| 0 <= k < w.len() implies #[trigger] self.agent_derivable(w[k]) by {
            if k < xgs.len() {
                assert(w[k] == w.subrange(0, xgs.len() as int)[k]);
                assert(self.agent_derivable(xgs[k]));
            } else {
                let t = k - xgs.len();
                let ci = chosen[t];
                let pi = parents[ci] as int;
                assert(0 <= ci < xgs.len());
                assert(pi < xgs.len());
                let p = xgs[ci];
                let q = xgs[pi];
                assert(call_ensures(self.f_offspring, (&p, &q), w[xgs.len() + t]));
                assert(self.agent_derivable(p));
                assert(self.agent_derivable(q));
                let d1 = choose|d: nat|
                    derivable(self.get_random_agent, self.f_mutate, self.f_offspring, p, d);
                let d2 = choose|d: nat|
                    derivable(self.get_random_agent, self.f_mutate, self.f_offspring, q, d);
                let dm: nat = if d1 >= d2 {
                    d1
                } else {
                    d2
                };
                lemma_derivable_mono(
                    self.get_random_agent,
                    self.f_mutate,
                    self.f_offspring,
                    p,
                    d1,
                    dm,
                );
                lemma_derivable_mono(
                    self.get_random_agent,
                    self.f_mutate,
                    self.f_offspring,
                    q,
                    d2,
                    dm,
                );
                assert(derivable(
                    self.get_random_agent,
                    self.f_mutate,
                    self.f_offspring,
                    w[k],
                    dm + 1,
                ));
            }
        }
    }
}

} // verus!
