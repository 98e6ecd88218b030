use vstd::prelude::*;
use crate::config::{entries_view, Config};
use crate::metrics::{LoadTestReport, RequestMetrics};

verus! {

/// Whether `m` is counted in a tally of `host` (`None`: of every host).
pub open spec fn counted(m: RequestMetrics, host: Option<Seq<char>>) -> bool {
    match host {
        None => true,
        Some(h) => m.host@ == h,
    }
}

/// The number of attempts in `s` that the tally of `host` counts.
pub open spec fn attempts(s: Seq<RequestMetrics>, host: Option<Seq<char>>) -> nat
    decreases s.len(),
{
    if s.len() == 0 {
        0
    } else {
        attempts(s.drop_last(), host) + if counted(s.last(), host) { 1nat } else { 0nat }
    }
}

/// The number of those attempts that succeeded.
pub open spec fn successes(s: Seq<RequestMetrics>, host: Option<Seq<char>>) -> nat
    decreases s.len(),
{
    if s.len() == 0 {
        0
    } else {
        successes(s.drop_last(), host) + if counted(s.last(), host) && s.last().success {
            1nat
        } else {
            0nat
        }
    }
}

/// The sum of those attempts' response times.
pub open spec fn response_time_sum(s: Seq<RequestMetrics>, host: Option<Seq<char>>) -> nat
    decreases s.len(),
{
    if s.len() == 0 {
        0
    } else {
        response_time_sum(s.drop_last(), host) + if counted(s.last(), host) {
            s.last().response_time as nat
        } else {
            0nat
        }
    }
}

/// The host that a tally is restricted to, if any.
pub open spec fn host_key(host: Option<&String>) -> Option<Seq<char>> {
    match host {
        Some(h) => Some(h@),
        None => None,
    }
}

/// Integer mean of `sum` over `count` items, zero when there are none.
pub open spec fn mean(sum: nat, count: nat) -> nat {
    if count == 0 {
        0
    } else {
        sum / count
    }
}

/// Totals over a set of attempts.
#[derive(PartialEq, Eq, Structural, Debug, Clone, Copy)]
pub struct Tally {
    pub total_requests: usize,
    pub successful_requests: usize,
    pub failed_requests: usize,
    /// Sum of the response times, in microseconds.
    pub total_response_time: u128,
    /// `total_response_time / total_requests`, rounded down; zero when there
    /// are no attempts.
    pub average_response_time: u64,
}

impl Tally {
    /// `self` is the tally of `host`'s attempts in `s`.
    pub open spec fn describes(&self, s: Seq<RequestMetrics>, host: Option<Seq<char>>) -> bool {
        &&& self.total_requests == attempts(s, host)
        &&& self.successful_requests == successes(s, host)
        &&& self.failed_requests == attempts(s, host) - successes(s, host)
        &&& self.total_response_time == response_time_sum(s, host)
        &&& self.average_response_time == mean(response_time_sum(s, host), attempts(s, host))
    }
}

/// The totals of a run, and the same per configured target.
#[derive(Debug, Clone, PartialEq)]
pub struct FinalReport {
    pub overall: Tally,
    pub hosts: Vec<(String, Tally)>,
}

pub proof fn lemma_successes_bounded(s: Seq<RequestMetrics>, host: Option<Seq<char>>)
    ensures
        successes(s, host) <= attempts(s, host),
        attempts(s, host) <= s.len(),
        response_time_sum(s, host) <= attempts(s, host) * (u64::MAX as nat),
    decreases s.len(),
{
    if s.len() > 0 {
        lemma_successes_bounded(s.drop_last(), host);
        let a = attempts(s.drop_last(), host);
        assert(a * (u64::MAX as nat) + (u64::MAX as nat) == (a + 1) * (u64::MAX as nat))
            by (nonlinear_arith);
    }
}

proof fn lemma_remove_one(s: Seq<RequestMetrics>, k: int, host: Option<Seq<char>>)
    requires
        0 <= k < s.len(),
    ensures
        attempts(s, host) == attempts(s.remove(k), host) + if counted(s[k], host) { 1nat } else { 0nat },
        successes(s, host) == successes(s.remove(k), host) + if counted(s[k], host) && s[k].success {
            1nat
        } else {
            0nat
        },
        response_time_sum(s, host) == response_time_sum(s.remove(k), host) + if counted(s[k], host) {
            s[k].response_time as nat
        } else {
            0nat
        },
    decreases s.len(),
{
    if k == s.len() - 1 {
        assert(s.remove(k) =~= s.drop_last());
    } else {
        let r = s.remove(k);
        assert(r.drop_last() =~= s.drop_last().remove(k));
        assert(r.last() == s.last());
        lemma_remove_one(s.drop_last(), k, host);
    }
}

/// The totals of a set of attempts do not depend on the order in which the
/// attempts arrived: two sequences holding the same attempts, each as many
/// times, give the same counts and the same sum of response times.
pub proof fn lemma_tally_order_free(s1: Seq<RequestMetrics>, s2: Seq<RequestMetrics>, host: Option<Seq<char>>)
    requires
        s1.to_multiset() == s2.to_multiset(),
    ensures
        attempts(s1, host) == attempts(s2, host),
        successes(s1, host) == successes(s2, host),
        response_time_sum(s1, host) == response_time_sum(s2, host),
    decreases s1.len(),
{
    broadcast use vstd::seq_lib::group_to_multiset_ensures;

    if s1.len() == 0 {
        assert(s2.len() == s2.to_multiset().len());
        assert(s2 =~= Seq::<RequestMetrics>::empty());
    } else {
        let x = s1.last();
        let init = s1.drop_last();
        assert(init.push(x) =~= s1);
        assert(s1.to_multiset() =~= init.to_multiset().insert(x));
        assert(s2.to_multiset().count(x) > 0);
        assert(s2.contains(x));
        let k = choose|k: int| 0 <= k < s2.len() && s2[k] == x;
        let rest = s2.remove(k);
        assert(rest.to_multiset() =~= s2.to_multiset().remove(x));
        assert(init.to_multiset() =~= init.to_multiset().insert(x).remove(x));
        lemma_tally_order_free(init, rest, host);
        lemma_remove_one(s2, k, host);
    }
}

proof fn lemma_mean_fits(sum: nat, count: nat)
    requires
        sum <= count * (u64::MAX as nat),
    ensures
        mean(sum, count) <= u64::MAX,
{
    if count > 0 {
        assert(sum / count <= u64::MAX) by (nonlinear_arith)
            requires
                sum <= count * (u64::MAX as nat),
                count > 0,
        ;
    }
}

/// Counts, in one pass, the attempts of `entries` that the tally of `host`
/// takes in (`None`: all of them).
pub fn tally(entries: &Vec<RequestMetrics>, host: Option<&String>) -> (r: Tally)
    ensures
        r.describes(entries@, host_key(host)),
        r.successful_requests + r.failed_requests == r.total_requests,
{
    let ghost h = host_key(host);
    let ghost s = entries@;
    let mut total: usize = 0;
    let mut ok: usize = 0;
    let mut sum: u128 = 0;
    let mut i: usize = 0;
    proof {
        assert(s.take(0) =~= Seq::<RequestMetrics>::empty());
    }
    while i < entries.len()
        invariant
            s == entries@,
            h == host_key(host),
            i <= s.len(),
            total == attempts(s.take(i as int), h),
            ok == successes(s.take(i as int), h),
            sum == response_time_sum(s.take(i as int), h),
        decreases s.len() - i,
    {
        let m = &entries[i];
        proof {
            assert(s.take(i + 1).drop_last() == s.take(i as int));
            assert(s.take(i + 1).last() == s[i as int]);
            lemma_successes_bounded(s.take(i as int), h);
            assert(attempts(s.take(i as int), h) * (u64::MAX as nat) <= (i as nat) * (u64::MAX as nat))
                by (nonlinear_arith)
                requires
                    attempts(s.take(i as int), h) <= i,
            ;
            assert((i as nat) * (u64::MAX as nat) <= (usize::MAX as nat) * (u64::MAX as nat))
                by (nonlinear_arith)
                requires
                    i <= usize::MAX,
            ;
        }
        let take = match host {
            None => true,
            Some(name) => m.host == *name,
        };
        if take {
            total = total + 1;
            sum = sum + m.response_time as u128;
            if m.success {
                ok = ok + 1;
            }
        }
        i = i + 1;
    }
    proof {
        assert(s.take(i as int) == s);
        lemma_successes_bounded(s, h);
        lemma_mean_fits(sum as nat, total as nat);
    }
    let average: u64 = if total == 0 {
        0
    } else {
        (sum / total as u128) as u64
    };
    Tally {
        total_requests: total,
        successful_requests: ok,
        failed_requests: total - ok,
        total_response_time: sum,
        average_response_time: average,
    }
}

/// The targets that a configuration names, in its order: the weighted
/// hosts where given, else the single host.
pub open spec fn config_hosts(config: &Config) -> Seq<Seq<char>> {
    match config.hosts_and_biases {
        Some(pairs) => entries_view(pairs@).map_values(|e: (Seq<char>, u32)| e.0),
        None => match config.host {
            Some(h) => seq![h@],
            None => Seq::empty(),
        },
    }
}

/// The targets of `config`, in its order.
pub fn target_hosts(config: &Config) -> (r: Vec<String>)
    ensures
        r@.map_values(|h: String| h@) == config_hosts(config),
{
    let mut out: Vec<String> = Vec::new();
    match &config.hosts_and_biases {
        Some(pairs) => {
            let ghost hs = entries_view(pairs@).map_values(|e: (Seq<char>, u32)| e.0);
            let mut i: usize = 0;
            while i < pairs.len()
                invariant
                    hs == entries_view(pairs@).map_values(|e: (Seq<char>, u32)| e.0),
                    i <= pairs@.len(),
                    out@.map_values(|h: String| h@) == hs.take(i as int),
                decreases pairs@.len() - i,
            {
                let h = pairs[i].0.clone();
                let ghost before = out@;
                proof {
                    assert(hs[i as int] == h@);
                }
                out.push(h);
                proof {
                    assert(out@.map_values(|h: String| h@) =~= before.map_values(|h: String| h@).push(hs[i as int]));
                    assert(hs.take(i + 1) =~= hs.take(i as int).push(hs[i as int]));
                }
                i = i + 1;
            }
            proof {
                assert(hs.take(i as int) == hs);
            }
        },
        None => match &config.host {
            Some(h) => {
                out.push(h.clone());
                proof {
                    assert(out@.map_values(|h: String| h@) =~= seq![h@]);
                }
            },
            None => {
                proof {
                    assert(out@.map_values(|h: String| h@) =~= Seq::<Seq<char>>::empty());
                }
            },
        },
    }
    out
}

/// Reduces the attempts of a run to its totals, and to the same totals for
/// each target that `config` names, in the configuration's order. The
/// result depends on the attempts alone.
pub fn generate_final_report(requests: &Vec<RequestMetrics>, config: &Config) -> (r: FinalReport)
    ensures
        r.overall.describes(requests@, None),
        r.overall.successful_requests + r.overall.failed_requests == r.overall.total_requests,
        r.hosts@.len() == config_hosts(config).len(),
        forall|i: int|
            0 <= i < r.hosts@.len() ==> {
                &&& (#[trigger] r.hosts@[i]).0@ == config_hosts(config)[i]
                &&& r.hosts@[i].1.describes(requests@, Some(config_hosts(config)[i]))
            },
{
    let overall = tally(requests, None);
    let names = target_hosts(config);
    let ghost hs = config_hosts(config);
    let mut hosts: Vec<(String, Tally)> = Vec::new();
    let mut i: usize = 0;
    while i < names.len()
        invariant
            names@.map_values(|h: String| h@) == hs,
            hs == config_hosts(config),
            i <= names@.len(),
            hosts@.len() == i,
            forall|k: int|
                0 <= k < i ==> {
                    &&& (#[trigger] hosts@[k]).0@ == hs[k]
                    &&& hosts@[k].1.describes(requests@, Some(hs[k]))
                },
        decreases names@.len() - i,
    {
        let t = tally(requests, Some(&names[i]));
        proof {
            assert(hs[i as int] == names@[i as int]@);
        }
        hosts.push((names[i].clone(), t));
        i = i + 1;
    }
    FinalReport { overall, hosts }
}

/// The report of a run: its attempts, with the duration, rate and kind of
/// test that `config` set.
pub fn build_report(metrics: Vec<RequestMetrics>, config: &Config) -> (r: LoadTestReport)
    ensures
        r.metrics@ == metrics@,
        r.duration == config.duration,
        r.rps == config.rps,
        r.load_test_type@ == config.load_test_type@,
{
    LoadTestReport {
        metrics,
        duration: config.duration,
        rps: config.rps,
        load_test_type: config.load_test_type.clone(),
    }
}

} // verus!
