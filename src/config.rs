use vstd::prelude::*;
use crate::text::{pieces, lemma_pieces_nonempty, parse_u32, split_on, u32_of};

verus! {

/// The settings of one run, as validated by the command line front end.
#[derive(Debug, Clone, PartialEq)]
pub struct Config {
    pub host: Option<String>,
    /// Targets with their relative weights, in a fixed order, hosts unique.
    pub hosts_and_biases: Option<Vec<(String, u32)>>,
    pub port: u16,
    pub duration: u64,
    pub rps: u32,
    pub load_test_type: String,
    pub output_file: String,
    pub payload: String,
    pub jitter: u64,
}

/// Why a `host:bias` list was rejected.
#[derive(PartialEq, Eq, Structural, Debug, Clone, Copy)]
pub enum BiasError {
    /// A comma separated item is not of the form `host:bias`.
    InvalidPair,
    /// A bias is not an unsigned 32-bit decimal number.
    InvalidBias,
    /// A bias is zero.
    ZeroBias,
    /// The biases add up to more than `u32::MAX`.
    TotalOverflow,
}

/// The mathematical view of a list of weighted targets.
pub open spec fn entries_view(v: Seq<(String, u32)>) -> Seq<(Seq<char>, u32)> {
    v.map_values(|e: (String, u32)| (e.0@, e.1))
}

/// `m` with the weight of `h` set to `b`: in place where `h` is already
/// listed, appended otherwise.
pub open spec fn upsert(m: Seq<(Seq<char>, u32)>, h: Seq<char>, b: u32) -> Seq<(Seq<char>, u32)>
    decreases m.len(),
{
    if m.len() == 0 {
        seq![(h, b)]
    } else if m[0].0 == h {
        m.update(0, (h, b))
    } else {
        seq![m[0]] + upsert(m.drop_first(), h, b)
    }
}

/// Reads the `host:bias` items `ps` left to right, giving the weighted
/// targets and the sum of all biases read, or the first error met.
pub open spec fn parse_pairs(ps: Seq<Seq<char>>) -> Result<(Seq<(Seq<char>, u32)>, nat), BiasError>
    decreases ps.len(),
{
    if ps.len() == 0 {
        Ok((Seq::empty(), 0))
    } else {
        match parse_pairs(ps.drop_last()) {
            Err(e) => Err(e),
            Ok((m, t)) => {
                let parts = pieces(ps.last(), ':');
                if parts.len() != 2 {
                    Err(BiasError::InvalidPair)
                } else {
                    match u32_of(parts[1]) {
                        None => Err(BiasError::InvalidBias),
                        Some(b) => if b == 0 {
                            Err(BiasError::ZeroBias)
                        } else if t + b > u32::MAX {
                            Err(BiasError::TotalOverflow)
                        } else {
                            Ok((upsert(m, parts[0], b), (t + b) as nat))
                        },
                    }
                }
            },
        }
    }
}

/// The weighted targets that the list `s` (`host:bias` items separated by
/// commas) denotes.
pub open spec fn hosts_and_biases_of(s: Seq<char>) -> Result<Seq<(Seq<char>, u32)>, BiasError> {
    match parse_pairs(pieces(s, ',')) {
        Ok((m, _)) => Ok(m),
        Err(e) => Err(e),
    }
}

proof fn lemma_upsert_at(m: Seq<(Seq<char>, u32)>, h: Seq<char>, b: u32, i: int)
    requires
        0 <= i <= m.len(),
        forall|k: int| 0 <= k < i ==> (#[trigger] m[k]).0 != h,
        i < m.len() ==> m[i].0 == h,
    ensures
        upsert(m, h, b) == if i < m.len() {
            m.update(i, (h, b))
        } else {
            m.push((h, b))
        },
    decreases m.len(),
{
    if m.len() > 0 && i > 0 {
        let t = m.drop_first();
        assert forall|k: int| 0 <= k < i - 1 implies (#[trigger] t[k]).0 != h by {
            assert(t[k] == m[k + 1]);
        }
        lemma_upsert_at(t, h, b, i - 1);
        if i < m.len() {
            assert(seq![m[0]] + t.update(i - 1, (h, b)) =~= m.update(i, (h, b)));
        } else {
            assert(seq![m[0]] + t.push((h, b)) =~= m.push((h, b)));
        }
    } else if m.len() == 0 {
        assert(seq![(h, b)] =~= m.push((h, b)));
    }
}

proof fn lemma_error_stays(ps: Seq<Seq<char>>, k: int)
    requires
        0 <= k <= ps.len(),
        parse_pairs(ps.take(k)) is Err,
    ensures
        parse_pairs(ps) == parse_pairs(ps.take(k)),
    decreases ps.len(),
{
    if k < ps.len() {
        assert(ps.drop_last().take(k) == ps.take(k));
        lemma_error_stays(ps.drop_last(), k);
    } else {
        assert(ps.take(k) == ps);
    }
}

/// Sets the weight of `host` to `bias` in `map`.
fn upsert_entry(map: &mut Vec<(String, u32)>, host: String, bias: u32)
    ensures
        entries_view(final(map)@) == upsert(entries_view(old(map)@), host@, bias),
{
    let ghost m = entries_view(map@);
    let mut i: usize = 0;
    while i < map.len()
        invariant
            m == entries_view(map@),
            m == entries_view(old(map)@),
            i <= map@.len(),
            forall|k: int| 0 <= k < i ==> (#[trigger] m[k]).0 != host@,
        decreases map@.len() - i,
    {
        proof {
            assert(m[i as int] == (map@[i as int].0@, map@[i as int].1));
        }
        if map[i].0 == host {
            proof {
                lemma_upsert_at(m, host@, bias, i as int);
            }
            let ghost hv = host@;
            map.set(i, (host, bias));
            proof {
                assert(entries_view(map@) =~= m.update(i as int, (hv, bias)));
            }
            return;
        }
        i = i + 1;
    }
    proof {
        lemma_upsert_at(m, host@, bias, m.len() as int);
    }
    let ghost hv = host@;
    map.push((host, bias));
    proof {
        assert(entries_view(map@) =~= m.push((hv, bias)));
    }
}

/// Reads a list of weighted targets written `host:bias,host:bias,...`.
///
/// A host named twice keeps its place and takes the later bias; both biases
/// count towards the total, which must not exceed `u32::MAX`.
pub fn parse_hosts_and_biases(s: &str) -> (r: Result<Vec<(String, u32)>, BiasError>)
    ensures
        match r {
            Ok(v) => hosts_and_biases_of(s@) == Ok::<Seq<(Seq<char>, u32)>, BiasError>(entries_view(v@)),
            Err(e) => hosts_and_biases_of(s@) == Err::<Seq<(Seq<char>, u32)>, BiasError>(e),
        },
{
    let items = split_on(s, ',');
    let ghost ps = pieces(s@, ',');
    let mut map: Vec<(String, u32)> = Vec::new();
    let mut total: u32 = 0;
    let mut j: usize = 0;
    proof {
        assert(ps.take(0) =~= Seq::<Seq<char>>::empty());
        assert(entries_view(map@) =~= Seq::<(Seq<char>, u32)>::empty());
    }
    while j < items.len()
        invariant
            items@.map_values(|p: String| p@) == ps,
            ps == pieces(s@, ','),
            j <= items@.len(),
            parse_pairs(ps.take(j as int)) == Ok::<(Seq<(Seq<char>, u32)>, nat), BiasError>(
                (entries_view(map@), total as nat),
            ),
        decreases items@.len() - j,
    {
        let ghost pre = ps.take(j as int);
        let ghost cur = ps.take(j + 1);
        proof {
            assert(cur.drop_last() == pre);
            assert(cur.last() == ps[j as int]);
            assert(ps[j as int] == items@[j as int]@);
        }
        let parts = split_on(items[j].as_str(), ':');
        let ghost pv = parts@.map_values(|p: String| p@);
        if parts.len() != 2 {
            proof {
                lemma_error_stays(ps, j + 1);
                assert(ps.take(ps.len() as int) == ps);
            }
            return Err(BiasError::InvalidPair);
        }
        proof {
            assert(pv[1] == parts@[1]@);
            assert(pv[0] == parts@[0]@);
        }
        let bias = match parse_u32(parts[1].as_str()) {
            None => {
                proof {
                    lemma_error_stays(ps, j + 1);
                    assert(ps.take(ps.len() as int) == ps);
                }
                return Err(BiasError::InvalidBias);
            },
            Some(b) => b,
        };
        if bias == 0 {
            proof {
                lemma_error_stays(ps, j + 1);
                assert(ps.take(ps.len() as int) == ps);
            }
            return Err(BiasError::ZeroBias);
        }
        let next = match total.checked_add(bias) {
            None => {
                proof {
                    lemma_error_stays(ps, j + 1);
                    assert(ps.take(ps.len() as int) == ps);
                }
                return Err(BiasError::TotalOverflow);
            },
            Some(t) => t,
        };
        let host = parts[0].clone();
        upsert_entry(&mut map, host, bias);
        total = next;
        j = j + 1;
    }
    proof {
        assert(ps.take(j as int) == ps);
    }
    Ok(map)
}

} // verus!
