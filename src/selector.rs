use vstd::prelude::*;
use rand::rngs::StdRng;
use rand::Rng;
use rand::SeedableRng;
use crate::config::{entries_view, hosts_and_biases_of, parse_pairs, upsert, Config};
use crate::text::pieces;

verus! {

#[verifier::external_type_specification]
#[verifier::external_body]
pub struct ExStdRng(StdRng);

/// Relies on rand's `SeedableRng::seed_from_u64`: a generator whose
/// sequence is fixed by the seed.
#[verifier::external_body]
pub(crate) fn rng_from_seed(seed: u64) -> StdRng {
    StdRng::seed_from_u64(seed)
}

/// Relies on rand's `Rng::gen_range` over `0..bound`: a value below `bound`
/// (the call panics on an empty range, hence the bound is positive).
#[verifier::external_body]
pub(crate) fn draw_below(rng: &mut StdRng, bound: u64) -> (r: u64)
    requires
        bound > 0,
    ensures
        r < bound,
{
    rng.gen_range(0..bound)
}

/// The views of the strings `v`.
pub open spec fn names_view(v: Seq<String>) -> Seq<Seq<char>> {
    v.map_values(|h: String| h@)
}

/// The sum of the weights `ws`.
pub open spec fn weight_sum(ws: Seq<u32>) -> nat
    decreases ws.len(),
{
    if ws.len() == 0 {
        0
    } else {
        weight_sum(ws.drop_last()) + ws.last() as nat
    }
}

/// The sum of the first `k` weights of `ws`.
pub open spec fn cumulative(ws: Seq<u32>, k: int) -> nat {
    weight_sum(ws.take(k))
}

pub proof fn lemma_cumulative_bounded(ws: Seq<u32>, k: int)
    requires
        0 <= k <= ws.len(),
    ensures
        cumulative(ws, k) <= weight_sum(ws),
    decreases ws.len(),
{
    if k < ws.len() {
        assert(ws.drop_last().take(k) == ws.take(k));
        lemma_cumulative_bounded(ws.drop_last(), k);
    } else {
        assert(ws.take(k) == ws);
    }
}

/// The weights of a list of weighted targets.
pub open spec fn weights_of(m: Seq<(Seq<char>, u32)>) -> Seq<u32> {
    m.map_values(|e: (Seq<char>, u32)| e.1)
}

pub proof fn lemma_weight_sum_concat(a: Seq<u32>, b: Seq<u32>)
    ensures
        weight_sum(a + b) == weight_sum(a) + weight_sum(b),
    decreases b.len(),
{
    if b.len() == 0 {
        assert(a + b =~= a);
    } else {
        assert((a + b).drop_last() =~= a + b.drop_last());
        lemma_weight_sum_concat(a, b.drop_last());
    }
}

proof fn lemma_weight_sum_single(w: u32)
    ensures
        weight_sum(seq![w]) == w,
{
    assert(seq![w].drop_last() =~= Seq::<u32>::empty());
    assert(weight_sum(Seq::<u32>::empty()) == 0);
}

proof fn lemma_weight_sum_cons(m: Seq<(Seq<char>, u32)>)
    requires
        m.len() > 0,
    ensures
        weight_sum(weights_of(m)) == m[0].1 + weight_sum(weights_of(m.drop_first())),
{
    assert(weights_of(m) =~= seq![m[0].1] + weights_of(m.drop_first()));
    lemma_weight_sum_concat(seq![m[0].1], weights_of(m.drop_first()));
    lemma_weight_sum_single(m[0].1);
}

proof fn lemma_upsert_weights(m: Seq<(Seq<char>, u32)>, h: Seq<char>, b: u32)
    ensures
        upsert(m, h, b).len() >= 1,
        (forall|k: int| 0 <= k < m.len() ==> (#[trigger] m[k]).1 > 0) && b > 0 ==> forall|k: int|
            0 <= k < upsert(m, h, b).len() ==> (#[trigger] upsert(m, h, b)[k]).1 > 0,
        weight_sum(weights_of(upsert(m, h, b))) <= weight_sum(weights_of(m)) + b,
    decreases m.len(),
{
    let u = upsert(m, h, b);
    if m.len() == 0 {
        assert(weights_of(u) =~= seq![b]);
        lemma_weight_sum_single(b);
    } else if m[0].0 == h {
        lemma_weight_sum_cons(m);
        lemma_weight_sum_cons(u);
        assert(u[0] == (h, b));
        assert(u.drop_first() =~= m.drop_first());
    } else {
        let t = m.drop_first();
        lemma_upsert_weights(t, h, b);
        lemma_weight_sum_cons(m);
        lemma_weight_sum_cons(u);
        assert(u.drop_first() =~= upsert(t, h, b));
        if (forall|k: int| 0 <= k < m.len() ==> (#[trigger] m[k]).1 > 0) && b > 0 {
            assert forall|k: int| 0 <= k < u.len() implies (#[trigger] u[k]).1 > 0 by {
                if k > 0 {
                    assert(u[k] == upsert(t, h, b)[k - 1]);
                    assert(0 <= k - 1 < t.len() ==> t[k - 1] == m[k]);
                }
            }
        }
    }
}

proof fn lemma_parse_pairs_valid(ps: Seq<Seq<char>>)
    ensures
        parse_pairs(ps) matches Ok((m, t)) ==> {
            &&& ps.len() > 0 ==> m.len() > 0
            &&& forall|k: int| 0 <= k < m.len() ==> (#[trigger] m[k]).1 > 0
            &&& weight_sum(weights_of(m)) <= t
            &&& t <= u32::MAX
        },
    decreases ps.len(),
{
    if ps.len() > 0 {
        lemma_parse_pairs_valid(ps.drop_last());
        if let Ok((m0, t0)) = parse_pairs(ps.drop_last()) {
            let parts = pieces(ps.last(), ':');
            if parts.len() == 2 {
                lemma_upsert_weights(m0, parts[0], 1);
                if let Some(b) = crate::text::u32_of(parts[1]) {
                    lemma_upsert_weights(m0, parts[0], b);
                }
            }
        }
    }
}

/// Every weighted host list that the parser accepts makes a selector: its
/// hosts are at least one, each weight is positive and the weights add up
/// to at most `u32::MAX`.
pub proof fn lemma_parsed_biases_make_a_selector(s: Seq<char>)
    requires
        hosts_and_biases_of(s) is Ok,
    ensures
        selector_error(weights_of(hosts_and_biases_of(s)->Ok_0)) is None,
{
    crate::text::lemma_pieces_nonempty(s, ',');
    lemma_parse_pairs_valid(pieces(s, ','));
    let m = hosts_and_biases_of(s)->Ok_0;
    let ws = weights_of(m);
    assert(forall|k: int| 0 <= k < ws.len() ==> ws[k] == m[k].1);
}

/// Why a set of weighted targets cannot make a selector.
#[derive(PartialEq, Eq, Structural, Debug, Clone, Copy)]
pub enum SelectorError {
    /// No target was given.
    NoTargets,
    /// Some target has weight zero.
    ZeroWeight,
    /// The weights add up to more than `u32::MAX`.
    TotalOverflow,
}

/// Why a configuration cannot start a run.
#[derive(PartialEq, Eq, Structural, Debug, Clone, Copy)]
pub enum ConfigError {
    /// Neither a single host nor a weighted host list is set.
    MissingTarget,
    /// Both a single host and a weighted host list are set.
    ConflictingTargets,
    /// The weighted host list cannot make a selector.
    Selector(SelectorError),
}

/// The error, if any, of building a selector from `config`'s targets.
pub open spec fn config_target_error(config: &Config) -> Option<ConfigError> {
    match (config.host, config.hosts_and_biases) {
        (Some(_), Some(_)) => Some(ConfigError::ConflictingTargets),
        (None, None) => Some(ConfigError::MissingTarget),
        (Some(_), None) => None,
        (None, Some(pairs)) => match selector_error(
            entries_view(pairs@).map_values(|e: (Seq<char>, u32)| e.1),
        ) {
            Some(se) => Some(ConfigError::Selector(se)),
            None => None,
        },
    }
}

/// Picks the target of each request, in proportion to the targets' weights.
pub struct TargetSelector {
    hosts: Vec<String>,
    weights: Vec<u32>,
    total: u32,
}

/// The error, if any, of building a selector from the weights `ws`.
pub open spec fn selector_error(ws: Seq<u32>) -> Option<SelectorError> {
    if ws.len() == 0 {
        Some(SelectorError::NoTargets)
    } else if exists|i: int| 0 <= i < ws.len() && ws[i] == 0 {
        Some(SelectorError::ZeroWeight)
    } else if weight_sum(ws) > u32::MAX {
        Some(SelectorError::TotalOverflow)
    } else {
        None
    }
}

impl TargetSelector {
    pub closed spec fn hosts_view(&self) -> Seq<Seq<char>> {
        names_view(self.hosts@)
    }

    pub closed spec fn weights_view(&self) -> Seq<u32> {
        self.weights@
    }

    /// At least one target, every weight positive, and their sum fits the
    /// draw counter.
    pub open spec fn wf(&self) -> bool {
        &&& self.hosts_view().len() == self.weights_view().len()
        &&& selector_error(self.weights_view()) is None
        &&& self.total_spec() == weight_sum(self.weights_view())
    }

    pub closed spec fn total_spec(&self) -> nat {
        self.total as nat
    }

    /// A selector that always picks `host`.
    pub fn single(host: String) -> (r: TargetSelector)
        ensures
            r.wf(),
            r.hosts_view() == seq![host@],
            r.weights_view() == seq![1u32],
    {
        let ghost hv = host@;
        let mut hosts: Vec<String> = Vec::new();
        hosts.push(host);
        let mut weights: Vec<u32> = Vec::new();
        weights.push(1);
        let r = TargetSelector { hosts, weights, total: 1 };
        proof {
            assert(r.hosts_view() =~= seq![hv]);
            assert(r.weights_view() =~= seq![1u32]);
            assert(r.weights_view().drop_last() =~= Seq::<u32>::empty());
            assert(weight_sum(Seq::<u32>::empty()) == 0);
            assert(weight_sum(seq![1u32]) == weight_sum(seq![1u32].drop_last()) + 1);
            assert(weight_sum(r.weights_view()) == 1);
            assert(r.weights_view()[0] == 1);
        }
        r
    }

    /// A selector over the weighted targets `pairs`, kept in their order.
    /// It fails when there is no target, when a weight is zero, or when the
    /// weights add up to more than `u32::MAX`.
    pub fn weighted(pairs: &Vec<(String, u32)>) -> (r: Result<TargetSelector, SelectorError>)
        ensures
            match r {
                Ok(s) => {
                    &&& selector_error(entries_view(pairs@).map_values(|e: (Seq<char>, u32)| e.1)) is None
                    &&& s.wf()
                    &&& s.hosts_view() == entries_view(pairs@).map_values(|e: (Seq<char>, u32)| e.0)
                    &&& s.weights_view() == entries_view(pairs@).map_values(|e: (Seq<char>, u32)| e.1)
                },
                Err(e) => selector_error(entries_view(pairs@).map_values(|e: (Seq<char>, u32)| e.1))
                    == Some(e),
            },
    {
        let ghost ws = entries_view(pairs@).map_values(|e: (Seq<char>, u32)| e.1);
        let ghost hs = entries_view(pairs@).map_values(|e: (Seq<char>, u32)| e.0);
        if pairs.len() == 0 {
            return Err(SelectorError::NoTargets);
        }
        let mut i: usize = 0;
        while i < pairs.len()
            invariant
                ws == entries_view(pairs@).map_values(|e: (Seq<char>, u32)| e.1),
                i <= pairs@.len(),
                forall|k: int| 0 <= k < i ==> ws[k] != 0,
            decreases pairs@.len() - i,
        {
            proof {
                assert(ws[i as int] == pairs@[i as int].1);
            }
            if pairs[i].1 == 0 {
                return Err(SelectorError::ZeroWeight);
            }
            i = i + 1;
        }
        let mut hosts: Vec<String> = Vec::new();
        let mut weights: Vec<u32> = Vec::new();
        let mut total: u64 = 0;
        let mut j: usize = 0;
        while j < pairs.len()
            invariant
                ws == entries_view(pairs@).map_values(|e: (Seq<char>, u32)| e.1),
                hs == entries_view(pairs@).map_values(|e: (Seq<char>, u32)| e.0),
                forall|k: int| 0 <= k < ws.len() ==> ws[k] != 0,
                j <= pairs@.len(),
                weights@ == ws.take(j as int),
                names_view(hosts@) == hs.take(j as int),
                total as nat == weight_sum(ws.take(j as int)),
                total <= u32::MAX,
            decreases pairs@.len() - j,
        {
            let w = pairs[j].1;
            let h = pairs[j].0.clone();
            proof {
                assert(ws[j as int] == w);
                assert(hs[j as int] == h@);
                assert(ws.take(j + 1).drop_last() == ws.take(j as int));
            }
            total = total + w as u64;
            if total > 0xffff_ffffu64 {
                proof {
                    lemma_cumulative_bounded(ws, j + 1);
                    assert(!(exists|k: int| 0 <= k < ws.len() && ws[k] == 0));
                }
                return Err(SelectorError::TotalOverflow);
            }
            let ghost hv = h@;
            let ghost before = hosts@;
            hosts.push(h);
            weights.push(w);
            proof {
                assert(weights@ =~= ws.take(j + 1));
                assert(names_view(hosts@) =~= names_view(before).push(hv));
                assert(names_view(hosts@) =~= hs.take(j + 1));
            }
            j = j + 1;
        }
        proof {
            assert(ws.take(j as int) == ws);
            assert(hs.take(j as int) == hs);
            assert(!(exists|k: int| 0 <= k < ws.len() && ws[k] == 0));
        }
        Ok(TargetSelector { hosts, weights, total: total as u32 })
    }

    /// The selector that a configuration asks for: its weighted host list, or
    /// else its single host. Exactly one of the two must be set.
    pub fn from_config(config: &Config) -> (r: Result<TargetSelector, ConfigError>)
        ensures
            match r {
                Ok(s) => config_target_error(config) is None && s.wf(),
                Err(e) => config_target_error(config) == Some(e),
            },
            match (config.host, config.hosts_and_biases) {
                (Some(_), Some(_)) => r == Err::<TargetSelector, ConfigError>(ConfigError::ConflictingTargets),
                (None, None) => r == Err::<TargetSelector, ConfigError>(ConfigError::MissingTarget),
                (Some(h), None) => r matches Ok(s) && s.wf() && s.hosts_view() == seq![h@],
                (None, Some(pairs)) => {
                    let ws = entries_view(pairs@).map_values(|e: (Seq<char>, u32)| e.1);
                    match r {
                        Ok(s) => {
                            &&& selector_error(ws) is None
                            &&& s.wf()
                            &&& s.hosts_view() == entries_view(pairs@).map_values(|e: (Seq<char>, u32)| e.0)
                            &&& s.weights_view() == ws
                        },
                        Err(e) => selector_error(ws) matches Some(se) && e == ConfigError::Selector(se),
                    }
                },
            },
    {
        match (&config.host, &config.hosts_and_biases) {
            (Some(_), Some(_)) => Err(ConfigError::ConflictingTargets),
            (None, None) => Err(ConfigError::MissingTarget),
            (Some(h), None) => Ok(TargetSelector::single(h.clone())),
            (None, Some(pairs)) => match TargetSelector::weighted(pairs) {
                Ok(s) => Ok(s),
                Err(e) => Err(ConfigError::Selector(e)),
            },
        }
    }

    /// The number of targets.
    pub fn len(&self) -> (r: usize)
        requires
            self.wf(),
        ensures
            r == self.hosts_view().len(),
            r >= 1,
    {
        proof {
            assert(self.hosts_view().len() == self.hosts@.len());
        }
        self.hosts.len()
    }

    /// The host of target `i`.
    pub fn host(&self, i: usize) -> (r: &String)
        requires
            self.wf(),
            i < self.hosts_view().len(),
        ensures
            r@ == self.hosts_view()[i as int],
    {
        &self.hosts[i]
    }

    /// The sum of the weights.
    pub fn total(&self) -> (r: u32)
        requires
            self.wf(),
        ensures
            r == weight_sum(self.weights_view()),
    {
        self.total
    }

    /// The target that the draw `r` lands on: the first whose cumulative
    /// weight exceeds `r`.
    pub fn pick(&self, r: u32) -> (i: usize)
        requires
            self.wf(),
            r < weight_sum(self.weights_view()),
        ensures
            i < self.hosts_view().len(),
            cumulative(self.weights_view(), i as int) <= r < cumulative(self.weights_view(), i + 1),
    {
        let ghost ws = self.weights_view();
        let n = self.weights.len();
        let mut acc: u32 = 0;
        let mut i: usize = 0;
        proof {
            assert(ws.take(0) =~= Seq::<u32>::empty());
            assert(self.hosts_view().len() == self.hosts@.len());
        }
        while i < n
            invariant
                ws == self.weights_view(),
                ws == self.weights@,
                n == ws.len(),
                self.wf(),
                r < weight_sum(ws),
                i <= n,
                acc as nat == cumulative(ws, i as int),
                acc <= r,
            decreases n - i,
        {
            proof {
                assert(ws.take(i + 1).drop_last() == ws.take(i as int));
                lemma_cumulative_bounded(ws, i + 1);
            }
            acc = acc + self.weights[i];
            if r < acc {
                return i;
            }
            i = i + 1;
        }
        proof {
            assert(ws.take(n as int) == ws);
        }
        0
    }

    /// Draws the target of one request from `rng`; with a single target no
    /// draw is made.
    pub fn select(&self, rng: &mut StdRng) -> (i: usize)
        requires
            self.wf(),
        ensures
            i < self.hosts_view().len(),
            self.hosts_view().len() == 1 ==> i == 0,
    {
        proof {
            assert(self.hosts_view().len() == self.hosts@.len());
        }
        if self.hosts.len() == 1 {
            return 0;
        }
        proof {
            let ws = self.weights_view();
            assert(ws.last() == ws[ws.len() - 1]);
            assert(ws[ws.len() - 1] != 0);
        }
        let r = draw_below(rng, self.total as u64);
        self.pick(r as u32)
    }
}

} // verus!
