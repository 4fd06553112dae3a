//! Integrators for Monte Carlo simulations: single-sweep state-update
//! strategies. A sweep of the Metropolis integrators proposes one move per
//! site; a sweep of the Wolff integrator grows and flips one cluster.

use vstd::prelude::*;
use rand_pcg::Pcg64;
use crate::energy::Hamiltonian;
use crate::exp::exp_neg;
use crate::fixed::{Fixed, SCALE};
use crate::geometry::{edge_endpoints, lattice_edges, lattice_sites, site_count};
use crate::rng::{rand_index, rand_unit};
use crate::state::{Flip, IsingSpin, Spin, State, MAX_SPINS};
use crate::thermostat::Thermostat;

verus! {

/// An integrator samples the phase space of a system: one step advances a
/// state by a single sweep.
pub trait Integrator<S: Spin, H: Hamiltonian<S>> {
    /// Whether the integrator can drive states of the given length.
    spec fn ready(&self, n: int) -> bool;

    /// Perform a single sweep, consuming and returning the state. The
    /// returned state has the same length and stays well formed.
    fn step(&self, rng: &mut Pcg64, thermostat: &Thermostat<S>, hamiltonian: &H,
        state: State<S>) -> (r: State<S>)
        requires
            hamiltonian.wf(),
            thermostat.wf(),
            state.wf(),
            hamiltonian.fits(state.0@.len() as int),
            self.ready(state.0@.len() as int),
            state.0@.len() <= MAX_SPINS,
        ensures
            r.wf(),
            r.0@.len() == state.0@.len(),
            hamiltonian.fits(r.0@.len() as int),
    ;
}

/// Whether a single-site move is accepted: a move that does not raise the
/// energy always is; one that raises it by `delta` is accepted when the
/// drawn unit fraction falls below `exp(-delta / T)`.
pub open spec fn accepts(delta: int, temp: int, draw: int) -> bool {
    delta <= 0 || draw < crate::exp::exp_neg_spec(delta, temp)
}

/// How many of the equally likely unit draws accept a move with the given
/// energy change: all of them when the energy does not rise, and the
/// fixed-point exponential of the rise otherwise.
pub open spec fn acceptance_weight(delta: int, temp: int) -> int {
    if delta <= 0 {
        SCALE as int
    } else {
        crate::exp::exp_neg_spec(delta, temp)
    }
}

/// Detailed balance of the single-site move, in the engine's fixed-point
/// model: for two configurations that differ at one site, with energy
/// difference `delta` one way and `-delta` the other, the ratio of forward
/// to reverse acceptance weights is the fixed-point exponential of
/// `-delta / T`. A move accepts exactly the draws below its weight.
pub proof fn lemma_detailed_balance(delta: int, temp: int, draw: int)
    requires
        temp >= 1,
        delta > 0,
        0 <= draw < SCALE,
    ensures
        acceptance_weight(delta, temp) * (SCALE as int)
            == crate::exp::exp_neg_spec(delta, temp)
                * acceptance_weight(-delta, temp),
        accepts(delta, temp, draw) <==> draw < acceptance_weight(delta, temp),
        accepts(-delta, temp, draw) <==> draw < acceptance_weight(-delta, temp),
{
}

/// Decide one proposed move from the drawn unit fraction: a move that does
/// not raise the energy is always accepted; one that raises it is accepted
/// exactly when the draw falls below the fixed-point acceptance ratio.
pub fn decide_move(delta: Fixed, temp: Fixed, draw: i64) -> (r: bool)
    requires
        temp.units >= 1,
        delta.units > i64::MIN,
        0 <= draw < SCALE,
    ensures
        r == accepts(delta.units as int, temp.units as int, draw as int),
{
    if delta.units <= 0 {
        return true;
    }
    let threshold = exp_neg(delta.units, temp.units);
    draw < threshold
}

/// Whether a cluster bond forms: the drawn unit fraction falls below one
/// minus the fixed-point exponential of minus twice the coupling over the
/// temperature.
pub open spec fn bonds(exchange: int, temp: int, draw: int) -> bool {
    draw < (SCALE as int) - crate::exp::exp_neg_spec(2 * exchange, temp)
}

/// Decide one cluster bond from the drawn unit fraction.
pub fn decide_bond(exchange: Fixed, temp: Fixed, draw: i64) -> (r: bool)
    requires
        temp.units >= 1,
        0 <= exchange.units <= i64::MAX / 4,
        0 <= draw < SCALE,
    ensures
        r == bonds(exchange.units as int, temp.units as int, draw as int),
{
    let escape = exp_neg(2 * exchange.units, temp.units);
    draw < SCALE - escape
}

/// The Metropolis integrator: a sweep proposes one random reorientation per
/// site, accepting each by the Metropolis rule.
#[derive(Debug, Default)]
pub struct MetropolisIntegrator {}

impl MetropolisIntegrator {
    /// A new Metropolis integrator.
    pub fn new() -> Self {
        Self {}
    }
}

impl<S: Spin, H: Hamiltonian<S>> Integrator<S, H> for MetropolisIntegrator {
    open spec fn ready(&self, n: int) -> bool {
        true
    }

    fn step(&self, rng: &mut Pcg64, thermostat: &Thermostat<S>, hamiltonian: &H,
        state: State<S>) -> State<S> {
        let mut state = state;
        let n = state.len();
        if n == 0 {
            return state;
        }
        let mut trial: usize = 0;
        while trial < n
            invariant
                hamiltonian.wf(),
                thermostat.wf(),
                state.wf(),
                hamiltonian.fits(n as int),
                n == state.0@.len(),
                n >= 1,
            decreases n - trial,
        {
            let site = rand_index(rng, n);
            proof {
                hamiltonian.lemma_energy_bounds(thermostat, state.0@, site as int);
            }
            let old_energy = hamiltonian.energy(thermostat, &state, site);
            let old_spin = *state.at(site);
            state.set_at(site, S::rand(rng));
            proof {
                hamiltonian.lemma_energy_bounds(thermostat, state.0@, site as int);
            }
            let new_energy = hamiltonian.energy(thermostat, &state, site);
            let delta = new_energy.sub(old_energy);
            let draw = rand_unit(rng);
            if !decide_move(delta, thermostat.temperature(), draw) {
                state.set_at(site, old_spin);
            }
            trial = trial + 1;
        }
        state
    }
}

/// The Metropolis integrator whose proposal flips the spin instead of
/// randomizing it; required for two-valued spins, where flipping makes the
/// chain irreducible in a single move.
#[derive(Debug, Default)]
pub struct MetropolisFlipIntegrator {}

impl MetropolisFlipIntegrator {
    /// A new Metropolis flip integrator.
    pub fn new() -> Self {
        Self {}
    }
}

impl<S: Spin + Flip, H: Hamiltonian<S>> Integrator<S, H> for MetropolisFlipIntegrator {
    open spec fn ready(&self, n: int) -> bool {
        true
    }

    /// Besides the trait's clauses, every site of the result holds either
    /// its old spin or that spin's flip: a sweep of flip proposals can do
    /// nothing else.
    fn step(&self, rng: &mut Pcg64, thermostat: &Thermostat<S>, hamiltonian: &H,
        state: State<S>) -> (r: State<S>)
        ensures
            forall|i: int| 0 <= i < r.0@.len()
                ==> #[trigger] r.0@[i] == state.0@[i]
                    || r.0@[i] == state.0@[i].flip_spec(),
    {
        let ghost orig = state.0@;
        let mut state = state;
        let n = state.len();
        if n == 0 {
            return state;
        }
        let mut trial: usize = 0;
        while trial < n
            invariant
                hamiltonian.wf(),
                thermostat.wf(),
                state.wf(),
                hamiltonian.fits(n as int),
                n == state.0@.len(),
                n >= 1,
                orig.len() == n,
                crate::state::all_inv(orig),
                forall|i: int| 0 <= i < n
                    ==> #[trigger] state.0@[i] == orig[i]
                        || state.0@[i] == orig[i].flip_spec(),
            decreases n - trial,
        {
            let site = rand_index(rng, n);
            proof {
                hamiltonian.lemma_energy_bounds(thermostat, state.0@, site as int);
            }
            let old_energy = hamiltonian.energy(thermostat, &state, site);
            let old_spin = *state.at(site);
            proof {
                S::lemma_flip(&old_spin, &old_spin);
                assert(orig[site as int].inv());
                S::lemma_flip(&orig[site as int], &orig[site as int]);
            }
            state.set_at(site, old_spin.flip());
            proof {
                hamiltonian.lemma_energy_bounds(thermostat, state.0@, site as int);
            }
            let new_energy = hamiltonian.energy(thermostat, &state, site);
            let delta = new_energy.sub(old_energy);
            let draw = rand_unit(rng);
            if !decide_move(delta, thermostat.temperature(), draw) {
                state.set_at(site, old_spin);
            }
            trial = trial + 1;
        }
        state
    }
}

/// The number of not-yet-visited entries of a visit map.
pub open spec fn count_unvisited(s: Seq<bool>) -> nat
    decreases s.len(),
{
    if s.len() == 0 {
        0
    } else {
        count_unvisited(s.drop_last()) + if s.last() {
            0nat
        } else {
            1nat
        }
    }
}

/// Marking an unvisited entry as visited lowers the unvisited count by one,
/// and marking never raises it.
proof fn lemma_count_mark(s: Seq<bool>, i: int)
    requires
        0 <= i < s.len(),
        !s[i],
    ensures
        count_unvisited(s.update(i, true)) == count_unvisited(s) - 1,
    decreases s.len(),
{
    let up = s.update(i, true);
    if i == s.len() - 1 {
        assert(up.drop_last() == s.drop_last());
    } else {
        lemma_count_mark(s.drop_last(), i);
        assert(up.drop_last() == s.drop_last().update(i, true));
        assert(up.last() == s.last());
    }
}

/// The neighbour lists built from an edge list over `n` sites: every edge
/// with in-range endpoints links both directions.
pub open spec fn neighbor_rows(edges: Seq<(usize, usize)>, n: int) -> Seq<Seq<usize>>
    decreases edges.len(),
{
    if edges.len() == 0 {
        Seq::new(n as nat, |i: int| Seq::<usize>::empty())
    } else {
        let earlier = neighbor_rows(edges.drop_last(), n);
        let (s, t) = edges.last();
        if (s as int) < n && (t as int) < n {
            let with_s = earlier.update(s as int, earlier[s as int].push(t));
            with_s.update(t as int, with_s[t as int].push(s))
        } else {
            earlier
        }
    }
}

/// The neighbour lists built from an edge list keep one row per site.
pub proof fn lemma_neighbor_rows_len(edges: Seq<(usize, usize)>, n: int)
    requires
        n >= 0,
    ensures
        neighbor_rows(edges, n).len() == n,
    decreases edges.len(),
{
    if edges.len() > 0 {
        lemma_neighbor_rows_len(edges.drop_last(), n);
    }
}

/// Whether a site belongs to a cluster given as a list of site numbers.
pub open spec fn in_cluster(c: Seq<usize>, i: int) -> bool {
    exists|a: int| 0 <= a < c.len() && c[a] as int == i
}

/// What one cluster update does to a state: the listed sites are pairwise
/// distinct in-range sites that all held the same spin, every later one
/// touches the earlier one its parent entry names through the neighbour
/// lists, every listed site ends flipped, and every other site is untouched.
pub open spec fn wolff_cluster_outcome(
    neighbors: Seq<Seq<usize>>, before: Seq<IsingSpin>, after: Seq<IsingSpin>,
    c: Seq<usize>, parents: Seq<int>,
) -> bool {
    &&& c.len() >= 1
    &&& parents.len() == c.len()
    &&& forall|a: int| 0 <= a < c.len() ==> (#[trigger] c[a] as int) < before.len()
    &&& forall|a: int, b: int| 0 <= a < b < c.len() ==> c[a] != c[b]
    &&& forall|a: int| 0 <= a < c.len()
        ==> before[#[trigger] c[a] as int] == before[c[0] as int]
    &&& forall|a: int| 1 <= a < c.len() ==> 0 <= #[trigger] parents[a] < a
        && neighbors[c[parents[a]] as int].contains(c[a])
    &&& after.len() == before.len()
    &&& forall|i: int| 0 <= i < after.len()
        ==> #[trigger] after[i] == if in_cluster(c, i) {
            before[i].flip_spec()
        } else {
            before[i]
        }
}

/// The Wolff cluster integrator for two-valued spins: a sweep grows one
/// cluster of aligned spins by bond-wise probabilistic inclusion and flips
/// it whole.
#[derive(Debug)]
pub struct WolffIntegrator {
    neighbor_list: Vec<Vec<usize>>,
    exchange: Fixed,
}

impl WolffIntegrator {
    /// The per-site neighbour lists.
    pub closed spec fn neighbors_spec(&self) -> Seq<Seq<usize>> {
        self.neighbor_list@.map_values(|v: Vec<usize>| v@)
    }

    /// The exchange constant the cluster bond probability is built from.
    pub closed spec fn exchange_spec(&self) -> Fixed {
        self.exchange
    }

    /// Every neighbour index addresses a site, and the exchange constant is
    /// a usable bond coupling.
    pub open spec fn wf(&self) -> bool {
        &&& forall|i: int, k: int|
            0 <= i < self.neighbors_spec().len()
                && 0 <= k < self.neighbors_spec()[i].len()
                ==> (#[trigger] self.neighbors_spec()[i][k] as int)
                    < self.neighbors_spec().len()
        &&& 0 <= self.exchange_spec().units <= i64::MAX / 4
    }

    /// A new Wolff integrator from explicit neighbour lists and an exchange
    /// constant.
    pub fn new(neighbor_list: Vec<Vec<usize>>, exchange: Fixed) -> (r: Self)
        ensures
            r.neighbors_spec() == neighbor_list@.map_values(|v: Vec<usize>| v@),
            r.exchange_spec() == exchange,
    {
        Self { neighbor_list, exchange }
    }

    /// A new Wolff integrator from a lattice geometry: every edge links its
    /// two endpoints in both directions; edges with out-of-range endpoints
    /// are ignored.
    pub fn from_lattice(exchange: Fixed, lattice: &vegas_lattice::Lattice)
        -> (r: Self)
        requires
            0 <= exchange.units <= i64::MAX / 4,
        ensures
            r.neighbors_spec() == neighbor_rows(
                lattice_edges(lattice), lattice_sites(lattice) as int),
            r.exchange_spec() == exchange,
            r.wf(),
    {
        let n = site_count(lattice);
        let mut rows: Vec<Vec<usize>> = Vec::new();
        let mut i: usize = 0;
        while i < n
            invariant
                0 <= i <= n,
                rows@.len() == i,
                forall|a: int| 0 <= a < i ==> (#[trigger] rows@[a])@.len() == 0,
            decreases n - i,
        {
            rows.push(Vec::new());
            i = i + 1;
        }
        proof {
            assert(rows@.map_values(|v: Vec<usize>| v@)
                =~~= neighbor_rows(
                    lattice_edges(lattice).take(0),
                    lattice_sites(lattice) as int));
        }
        let edges = edge_endpoints(lattice);
        let m = edges.len();
        let mut e: usize = 0;
        while e < m
            invariant
                n == lattice_sites(lattice),
                m == lattice_edges(lattice).len(),
                edges@ == lattice_edges(lattice),
                0 <= e <= m,
                rows@.len() == n,
                rows@.map_values(|v: Vec<usize>| v@) == neighbor_rows(
                    lattice_edges(lattice).take(e as int), n as int),
                forall|a: int, k: int|
                    0 <= a < n && 0 <= k < rows@[a]@.len()
                        ==> (#[trigger] rows@[a]@[k] as int) < n as int,
            decreases m - e,
        {
            proof {
                assert(lattice_edges(lattice).take(e + 1 as int).drop_last()
                    == lattice_edges(lattice).take(e as int));
                assert(lattice_edges(lattice).take(e + 1 as int).last()
                    == lattice_edges(lattice)[e as int]);
            }
            let (s, t) = edges[e];
            if s < n && t < n {
                rows[s].push(t);
                rows[t].push(s);
                proof {
                    assert(rows@.map_values(|v: Vec<usize>| v@)
                        =~~= neighbor_rows(
                            lattice_edges(lattice).take(e + 1 as int), n as int));
                }
            } else {
                proof {
                    assert(rows@.map_values(|v: Vec<usize>| v@)
                        =~~= neighbor_rows(
                            lattice_edges(lattice).take(e + 1 as int), n as int));
                }
            }
            e = e + 1;
        }
        proof {
            assert(lattice_edges(lattice).take(m as int) == lattice_edges(lattice));
        }
        Self { neighbor_list: rows, exchange }
    }
}

impl<H: Hamiltonian<IsingSpin>> Integrator<IsingSpin, H> for WolffIntegrator {
    open spec fn ready(&self, n: int) -> bool {
        self.wf() && n == self.neighbors_spec().len()
    }

    /// One cluster update. The Hamiltonian parameter is ignored: the bond
    /// probability already encodes the exchange coupling, so callers must
    /// only pair this integrator with two-valued spins and a pure exchange
    /// Hamiltonian of the same coupling. Besides the trait's clauses, on a
    /// non-empty state the result is the input with exactly one cluster
    /// flipped: a nonempty set of distinct same-spin sites grown from the
    /// seed through the neighbour lists.
    fn step(&self, rng: &mut Pcg64, thermostat: &Thermostat<IsingSpin>,
        hamiltonian: &H, state: State<IsingSpin>) -> (r: State<IsingSpin>)
        ensures
            state.0@.len() > 0 ==> exists|c: Seq<usize>, parents: Seq<int>|
                wolff_cluster_outcome(
                    self.neighbors_spec(), state.0@, r.0@, c, parents),
    {
        let ghost orig = state.0@;
        let mut state = state;
        let n = state.len();
        if n == 0 {
            return state;
        }

        let source = rand_index(rng, n);
        let temperature = thermostat.temperature();

        let mut queue: Vec<usize> = Vec::new();
        queue.push(source);
        // For every queued site, the cluster position of the site that
        // queued it; the seed carries a placeholder.
        let ghost mut q_parent: Seq<int> = seq![0int];
        let mut head: usize = 0;
        let mut visited: Vec<bool> = Vec::new();
        let mut i: usize = 0;
        while i < n
            invariant
                0 <= i <= n,
                visited@.len() == i,
                forall|a: int| 0 <= a < i ==> !(#[trigger] visited@[a]),
            decreases n - i,
        {
            visited.push(false);
            i = i + 1;
        }
        let mut cluster: Vec<usize> = Vec::new();
        // For every cluster member after the first, the earlier cluster
        // position whose neighbour list holds it.
        let ghost mut parent: Seq<int> = Seq::empty();

        while head < queue.len()
            invariant
                self.wf(),
                thermostat.wf(),
                temperature == thermostat.temperature_spec(),
                state.wf(),
                orig == state.0@,
                n == state.0@.len() == self.neighbors_spec().len(),
                n == visited@.len(),
                (source as int) < n as int,
                head <= queue.len(),
                queue@.len() >= 1,
                queue@[0] == source,
                q_parent.len() == queue@.len(),
                cluster@.len() == 0 ==> head == 0,
                head == 0 ==> !visited@[source as int],
                cluster@.len() >= 1 ==> cluster@[0] == source,
                parent.len() == cluster@.len(),
                forall|a: int| 0 <= a < queue@.len()
                    ==> (#[trigger] queue@[a] as int) < n as int,
                forall|a: int| 0 <= a < cluster@.len()
                    ==> (#[trigger] cluster@[a] as int) < n as int,
                forall|a: int| 0 <= a < cluster@.len()
                    ==> visited@[#[trigger] cluster@[a] as int],
                forall|a: int, b: int| 0 <= a < b < cluster@.len()
                    ==> cluster@[a] != cluster@[b],
                forall|a: int| 0 <= a < cluster@.len()
                    ==> orig[#[trigger] cluster@[a] as int] == orig[source as int],
                forall|a: int| 1 <= a < cluster@.len()
                    ==> 0 <= #[trigger] parent[a] < a
                        && self.neighbors_spec()[cluster@[parent[a]] as int]
                            .contains(cluster@[a]),
                forall|idx: int| head <= idx < queue@.len()
                    ==> orig[#[trigger] queue@[idx] as int] == orig[source as int],
                forall|idx: int| head <= idx < queue@.len()
                    ==> #[trigger] queue@[idx] == source
                        || (0 <= q_parent[idx] < cluster@.len()
                            && self.neighbors_spec()[
                                cluster@[q_parent[idx]] as int].contains(
                                queue@[idx])),
            decreases count_unvisited(visited@), queue.len() - head,
        {
            let site = queue[head];
            let ghost h0 = head as int;
            head = head + 1;
            if visited[site] {
                continue;
            }
            proof {
                lemma_count_mark(visited@, site as int);
            }
            visited.set(site, true);
            cluster.push(site);
            proof {
                if site == source {
                    parent = parent.push(0int);
                } else {
                    parent = parent.push(q_parent[h0]);
                }
            }
            let spin = *state.at(site);
            let row = &self.neighbor_list[site];
            let m = row.len();
            let mut k: usize = 0;
            while k < m
                invariant
                    self.wf(),
                    thermostat.wf(),
                    temperature == thermostat.temperature_spec(),
                    state.wf(),
                    orig == state.0@,
                    n == state.0@.len() == self.neighbors_spec().len(),
                    n == visited@.len(),
                    (site as int) < n as int,
                    spin == orig[site as int],
                    spin == orig[source as int],
                    row == &self.neighbor_list@[site as int],
                    m == row@.len(),
                    0 <= k <= m,
                    head <= queue@.len(),
                    queue@.len() >= 1,
                    queue@[0] == source,
                    q_parent.len() == queue@.len(),
                    cluster@.len() >= 1,
                    cluster@.last() == site,
                    forall|a: int| 0 <= a < queue@.len()
                        ==> (#[trigger] queue@[a] as int) < n as int,
                    forall|idx: int| head <= idx < queue@.len()
                        ==> orig[#[trigger] queue@[idx] as int]
                            == orig[source as int],
                    forall|idx: int| head <= idx < queue@.len()
                        ==> #[trigger] queue@[idx] == source
                            || (0 <= q_parent[idx] < cluster@.len()
                                && self.neighbors_spec()[
                                    cluster@[q_parent[idx]] as int].contains(
                                    queue@[idx])),
                decreases m - k,
            {
                let neighbor = row[k];
                proof {
                    assert(self.neighbors_spec()[site as int][k as int]
                        == row@[k as int]);
                    assert(self.neighbors_spec()[site as int].contains(
                        row@[k as int]));
                }
                if !visited[neighbor] && *state.at(neighbor) == spin {
                    let draw = rand_unit(rng);
                    if decide_bond(self.exchange, temperature, draw) {
                        queue.push(neighbor);
                        proof {
                            q_parent = q_parent.push(cluster@.len() - 1);
                            assert(cluster@[cluster@.len() - 1] == site);
                        }
                    }
                }
                k = k + 1;
            }
        }

        let ghost c = cluster@;
        let n2 = cluster.len();
        let mut j: usize = 0;
        while j < n2
            invariant
                n == state.0@.len(),
                orig.len() == n,
                crate::state::all_inv(orig),
                c == cluster@,
                n2 == c.len(),
                n2 >= 1,
                0 <= j <= n2,
                state.wf(),
                forall|a: int| 0 <= a < c.len()
                    ==> (#[trigger] c[a] as int) < n as int,
                forall|a: int, b: int| 0 <= a < b < c.len() ==> c[a] != c[b],
                forall|i: int| 0 <= i < n
                    ==> #[trigger] state.0@[i] == if in_cluster(
                        c.take(j as int), i) {
                        orig[i].flip_spec()
                    } else {
                        orig[i]
                    },
            decreases n2 - j,
        {
            let site = cluster[j];
            proof {
                assert(!in_cluster(c.take(j as int), site as int));
                assert(state.0@[site as int] == orig[site as int]);
                assert(orig[site as int].inv());
            }
            let old_spin = *state.at(site);
            state.set_at(site, old_spin.flip());
            proof {
                assert(c.take(j + 1 as int)[j as int] == site);
                assert(in_cluster(c.take(j + 1 as int), site as int));
                assert forall|i: int| 0 <= i < n implies
                    #[trigger] state.0@[i] == (if in_cluster(
                        c.take(j + 1 as int), i) {
                        orig[i].flip_spec()
                    } else {
                        orig[i]
                    }) by {
                    if i != site as int {
                        if in_cluster(c.take(j + 1 as int), i) {
                            let a = choose|a: int| 0 <= a
                                < c.take(j + 1 as int).len()
                                && (#[trigger] c.take(j + 1 as int)[a]) as int == i;
                            assert(a < j as int);
                            assert(in_cluster(c.take(j as int), i));
                        }
                        if in_cluster(c.take(j as int), i) {
                            let a = choose|a: int| 0 <= a < c.take(j as int).len()
                                && (#[trigger] c.take(j as int)[a]) as int == i;
                            assert(c.take(j + 1 as int)[a] as int == i);
                            assert(in_cluster(c.take(j + 1 as int), i));
                        }
                    }
                }
            }
            j = j + 1;
        }
        proof {
            assert(c.take(n2 as int) =~= c);
            assert(c.len() >= 1);
            assert(forall|a: int| 0 <= a < c.len()
                ==> (#[trigger] c[a] as int) < orig.len());
            assert(forall|a: int, b: int| 0 <= a < b < c.len() ==> c[a] != c[b]);
            assert forall|a: int| 0 <= a < c.len()
                implies orig[#[trigger] c[a] as int] == orig[c[0] as int] by {
                assert(orig[c[a] as int] == orig[source as int]);
                assert(c[0] == source);
            }
            assert(state.0@.len() == orig.len());
            assert forall|i: int| 0 <= i < state.0@.len()
                implies #[trigger] state.0@[i] == (if in_cluster(c, i) {
                    orig[i].flip_spec()
                } else {
                    orig[i]
                }) by {
                assert(state.0@[i] == (if in_cluster(c.take(n2 as int), i) {
                    orig[i].flip_spec()
                } else {
                    orig[i]
                }));
            }
            assert(wolff_cluster_outcome(
                self.neighbors_spec(), orig, state.0@, c, parent));
        }
        state
    }
}

} // verus!
