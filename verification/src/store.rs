//! The shared state store: the latest summary of each exchange, keyed by
//! exchange name.
//!
//! A key appears when its feed delivers a first update and is then
//! overwritten wholesale on every later one; no entry is ever removed.  The
//! store's meaning is the map from exchange name to summary built by
//! last-writer-wins insertion, and every operation is specified against
//! that map.  The store itself is a plain sequential value: callers that
//! share it across tasks guard it with a reader/writer lock and get
//! `put`/`snapshot` atomicity from that lock, so the contracts here are
//! what each critical section does.

use vstd::prelude::*;

use crate::book::{clone_summary, summary_eq, Summary};
use crate::decode::{decodes_to, is_wrapped, spec_decoded, spec_market_data, str_eq, DecodeError};
use crate::decode::summary_of_string;

verus! {

/// The map that a sequence of keyed entries denotes, by last-writer-wins
/// insertion from the front.
pub open spec fn map_of(es: Seq<(Seq<char>, Summary)>) -> Map<Seq<char>, Summary>
    decreases es.len(),
{
    if es.len() == 0 {
        Map::empty()
    } else {
        map_of(es.drop_last()).insert(es.last().0, es.last().1)
    }
}

/// No two entries share a key.
pub open spec fn keys_distinct(es: Seq<(Seq<char>, Summary)>) -> bool {
    forall|i: int, j: int| 0 <= i < j < es.len() ==> (#[trigger] es[i]).0 != (#[trigger] es[j]).0
}

proof fn lemma_map_of_push(es: Seq<(Seq<char>, Summary)>, k: Seq<char>, v: Summary)
    ensures
        map_of(es.push((k, v))) == map_of(es).insert(k, v),
{
    assert(es.push((k, v)).drop_last() =~= es);
    assert(es.push((k, v)).last() == (k, v));
}

proof fn lemma_map_of_update(es: Seq<(Seq<char>, Summary)>, i: int, v: Summary)
    requires
        0 <= i < es.len(),
        keys_distinct(es),
    ensures
        map_of(es.update(i, (es[i].0, v))) == map_of(es).insert(es[i].0, v),
    decreases es.len(),
{
    let k = es[i].0;
    let u = es.update(i, (k, v));
    if i == es.len() - 1 {
        assert(u.drop_last() =~= es.drop_last());
        assert(u.last() == (k, v));
        assert(map_of(u) =~= map_of(es).insert(k, v));
    } else {
        assert(u.drop_last() =~= es.drop_last().update(i, (k, v)));
        assert(es.drop_last()[i] == es[i]);
        assert(keys_distinct(es.drop_last()));
        lemma_map_of_update(es.drop_last(), i, v);
        assert(u.last() == es.last());
        assert(es.last().0 != k);
        assert(map_of(u) =~= map_of(es).insert(k, v));
    }
}

proof fn lemma_map_of_dom(es: Seq<(Seq<char>, Summary)>)
    ensures
        forall|k: Seq<char>|
            #[trigger] map_of(es).dom().contains(k) <==> exists|t: int|
                0 <= t < es.len() && (#[trigger] es[t]).0 == k,
    decreases es.len(),
{
    if es.len() > 0 {
        lemma_map_of_dom(es.drop_last());
        assert forall|k: Seq<char>| #[trigger]
            map_of(es).dom().contains(k) implies exists|t: int|
            0 <= t < es.len() && (#[trigger] es[t]).0 == k by {
            if k == es.last().0 {
                assert(es[es.len() - 1].0 == k);
            } else {
                assert(map_of(es.drop_last()).dom().contains(k));
                let dl = es.drop_last();
                let t = choose|t: int| 0 <= t < dl.len() && (#[trigger] dl[t]).0 == k;
                assert(es[t].0 == k);
            }
        }
        assert forall|k: Seq<char>|
            exists|t: int|
                0 <= t < es.len() && (#[trigger] es[t]).0 == k implies #[trigger] map_of(
            es,
        ).dom().contains(k) by {
            let t = choose|t: int| 0 <= t < es.len() && (#[trigger] es[t]).0 == k;
            if t == es.len() - 1 {
                assert(map_of(es).dom().contains(es.last().0));
            } else {
                assert(es.drop_last()[t].0 == k);
                assert(map_of(es.drop_last()).dom().contains(k));
            }
        }
    }
}

/// The shared state store: one entry per exchange, in order of first
/// appearance.
pub struct Store {
    entries: Vec<(String, Summary)>,
}

impl Store {
    /// The entries as (name, summary) pairs, in order of first appearance.
    pub closed spec fn entries_view(&self) -> Seq<(Seq<char>, Summary)> {
        self.entries@.map_values(|e: (String, Summary)| (e.0@, e.1))
    }

    /// The summaries alone, in entry order.
    pub open spec fn values(&self) -> Seq<Summary> {
        Seq::new(self.entries_view().len(), |i: int| self.entries_view()[i].1)
    }

    /// The store's meaning: exchange name to latest summary.
    pub open spec fn as_map(&self) -> Map<Seq<char>, Summary> {
        map_of(self.entries_view())
    }

    /// Each exchange holds at most one entry.
    pub open spec fn wf(&self) -> bool {
        keys_distinct(self.entries_view())
    }

    /// An empty store.
    pub fn new() -> (r: Store)
        ensures
            r.wf(),
            r.as_map() == Map::<Seq<char>, Summary>::empty(),
            r.entries_view() == Seq::<(Seq<char>, Summary)>::empty(),
    {
        let r = Store { entries: Vec::new() };
        proof {
            assert(r.entries_view() =~= Seq::<(Seq<char>, Summary)>::empty());
        }
        r
    }

    fn find(&self, exchange: &str) -> (r: Option<usize>)
        ensures
            match r {
                Some(i) => i < self.entries_view().len() && self.entries_view()[i as int].0
                    == exchange@,
                None => forall|t: int|
                    0 <= t < self.entries_view().len() ==> (#[trigger] self.entries_view()[t]).0
                        != exchange@,
            },
    {
        let mut i: usize = 0;
        while i < self.entries.len()
            invariant
                i <= self.entries_view().len(),
                forall|t: int|
                    0 <= t < i ==> (#[trigger] self.entries_view()[t]).0 != exchange@,
            decreases self.entries_view().len() - i,
        {
            if str_eq(self.entries[i].0.as_str(), exchange) {
                return Some(i);
            }
            i = i + 1;
        }
        None
    }

    /// Replaces the entry for `exchange` (or creates it): afterwards the
    /// store means the old map with `exchange` bound to `summary`.  A put
    /// never drops another exchange's entry.
    pub fn put(&mut self, exchange: &str, summary: Summary)
        requires
            old(self).wf(),
        ensures
            final(self).wf(),
            final(self).as_map() == old(self).as_map().insert(exchange@, summary),
            old(self).as_map().dom().contains(exchange@) ==> final(self).entries_view()
                == old(self).entries_view().update(
                choose|i: int|
                    0 <= i < old(self).entries_view().len() && old(self).entries_view()[i].0
                        == exchange@,
                (exchange@, summary),
            ),
            !old(self).as_map().dom().contains(exchange@) ==> final(self).entries_view() == old(
                self,
            ).entries_view().push((exchange@, summary)),
    {
        proof {
            lemma_map_of_dom(self.entries_view());
        }
        let ghost es = self.entries_view();
        match self.find(exchange) {
            Some(i) => {
                let (name, _prev) = self.entries.remove(i);
                self.entries.insert(i, (name, summary));
                proof {
                    assert(self.entries_view() =~= es.update(i as int, (exchange@, summary)));
                    assert(es[i as int].0 == exchange@);
                    lemma_map_of_update(es, i as int, summary);
                    let w = choose|w: int| 0 <= w < es.len() && es[w].0 == exchange@;
                    assert(es[w].0 == es[i as int].0);
                    assert(w == i as int);
                }
            },
            None => {
                self.entries.push((exchange.to_owned(), summary));
                proof {
                    assert(self.entries_view() =~= es.push((exchange@, summary)));
                    lemma_map_of_push(es, exchange@, summary);
                }
            },
        }
    }

    /// A point-in-time view of all entries: a copy of every exchange's
    /// current summary, in entry order.
    pub fn snapshot(&self) -> (r: Vec<Summary>)
        ensures
            r@.len() == self.values().len(),
            forall|i: int| 0 <= i < r@.len() ==> summary_eq(#[trigger] r@[i], self.values()[i]),
    {
        let mut out: Vec<Summary> = Vec::new();
        let mut i: usize = 0;
        while i < self.entries.len()
            invariant
                i <= self.entries_view().len(),
                out@.len() == i,
                forall|t: int| 0 <= t < i ==> summary_eq(#[trigger] out@[t], self.values()[t]),
            decreases self.entries_view().len() - i,
        {
            out.push(clone_summary(&self.entries[i].1));
            i = i + 1;
        }
        out
    }

    /// Decodes a feed payload and stores the result under `exchange_name`;
    /// on a decode error the store is left exactly as it was (the malformed
    /// message is dropped and the prior entry kept).
    pub fn decode_and_store(&mut self, exchange_name: &str, payload: &[u8]) -> (r: Result<
        (),
        DecodeError,
    >)
        requires
            old(self).wf(),
        ensures
            final(self).wf(),
            match r {
                Ok(()) => exists|s: Summary|
                    #[trigger] decodes_to(payload@, exchange_name@, s) && final(self).as_map()
                        == old(self).as_map().insert(exchange_name@, s),
                Err(e) => *final(self) == *old(self) && match e {
                    DecodeError::Malformed => spec_market_data(
                        payload@,
                        is_wrapped(exchange_name@),
                    ) is None,
                    DecodeError::BadNumber => spec_market_data(
                        payload@,
                        is_wrapped(exchange_name@),
                    ) is Some && spec_decoded(payload@, exchange_name@) is None,
                },
            },
    {
        match summary_of_string(payload, exchange_name) {
            Ok(s) => {
                self.put(exchange_name, s);
                Ok(())
            },
            Err(e) => Err(e),
        }
    }
}

/// Storing the same summary twice under the same key leaves the store's
/// map — and so any snapshot of it — unchanged against storing it once.
pub proof fn lemma_put_idempotent(m: Map<Seq<char>, Summary>, k: Seq<char>, s: Summary)
    ensures
        m.insert(k, s).insert(k, s) == m.insert(k, s),
{
    assert(m.insert(k, s).insert(k, s) =~= m.insert(k, s));
}

/// Puts under distinct keys commute: the store's map does not depend on
/// the order in which different exchanges' updates land.
pub proof fn lemma_put_commutes(
    m: Map<Seq<char>, Summary>,
    k1: Seq<char>,
    s1: Summary,
    k2: Seq<char>,
    s2: Summary,
)
    requires
        k1 != k2,
    ensures
        m.insert(k1, s1).insert(k2, s2) == m.insert(k2, s2).insert(k1, s1),
{
    assert(m.insert(k1, s1).insert(k2, s2) =~= m.insert(k2, s2).insert(k1, s1));
}

/// The map after a batch of puts, applied front to back.
pub open spec fn insert_all(
    m: Map<Seq<char>, Summary>,
    ps: Seq<(Seq<char>, Summary)>,
) -> Map<Seq<char>, Summary>
    decreases ps.len(),
{
    if ps.len() == 0 {
        m
    } else {
        insert_all(m, ps.drop_last()).insert(ps.last().0, ps.last().1)
    }
}

/// A batch of puts under pairwise distinct keys is fully observed: after
/// all of them, a snapshot holds every put key, bound to the summary that
/// was put under it.
pub proof fn lemma_snapshot_observes_puts(
    m: Map<Seq<char>, Summary>,
    ps: Seq<(Seq<char>, Summary)>,
)
    requires
        keys_distinct(ps),
    ensures
        forall|i: int|
            0 <= i < ps.len() ==> insert_all(m, ps).dom().contains((#[trigger] ps[i]).0)
                && insert_all(m, ps)[ps[i].0] == ps[i].1,
    decreases ps.len(),
{
    if ps.len() > 0 {
        assert(keys_distinct(ps.drop_last()));
        lemma_snapshot_observes_puts(m, ps.drop_last());
        assert forall|i: int| 0 <= i < ps.len() implies insert_all(m, ps).dom().contains(
            (#[trigger] ps[i]).0,
        ) && insert_all(m, ps)[ps[i].0] == ps[i].1 by {
            if i < ps.len() - 1 {
                assert(ps.drop_last()[i] == ps[i]);
                assert(ps[i].0 != ps.last().0);
            }
        }
    }
}

} // verus!
