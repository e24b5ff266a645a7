use vstd::prelude::*;
use vstd::slice::slice_to_vec;
use crate::bytefmt::bytes_eq;

verus! {

/// One channel's entry: its name and the handles of its subscribers,
/// in subscription order, each at most once.
pub struct ChannelEntry {
    pub name: Vec<u8>,
    pub subs: Vec<u64>,
}

/// No channel name twice.
pub open spec fn distinct_chans(s: Seq<ChannelEntry>) -> bool {
    forall|i: int, j: int| 0 <= i < j < s.len() ==> s[i].name@ != s[j].name@
}

/// No subscriber handle twice in one list.
pub open spec fn distinct_subs(s: Seq<u64>) -> bool {
    forall|i: int, j: int| 0 <= i < j < s.len() ==> s[i] != s[j]
}

pub open spec fn spec_has_chan(s: Seq<ChannelEntry>, k: Seq<u8>) -> bool {
    exists|i: int| 0 <= i < s.len() && s[i].name@ == k
}

pub open spec fn spec_chan_index(s: Seq<ChannelEntry>, k: Seq<u8>) -> int {
    choose|i: int| 0 <= i < s.len() && s[i].name@ == k
}

/// The map an entry list stands for: channel name to subscriber
/// handles in order.
pub open spec fn spec_chan_map(s: Seq<ChannelEntry>) -> Map<Seq<u8>, Seq<u64>> {
    Map::new(|k: Seq<u8>| spec_has_chan(s, k), |k: Seq<u8>| s[spec_chan_index(s, k)].subs@)
}

proof fn lemma_chan_map_index(s: Seq<ChannelEntry>, i: int)
    requires
        distinct_chans(s),
        0 <= i < s.len(),
    ensures
        spec_chan_map(s).contains_key(s[i].name@),
        spec_chan_map(s)[s[i].name@] == s[i].subs@,
{
    let k = s[i].name@;
    assert(spec_has_chan(s, k));
    let j = spec_chan_index(s, k);
    assert(0 <= j < s.len() && s[j].name@ == k);
    if j < i {
        assert(s[j].name@ != s[i].name@);
    } else if i < j {
        assert(s[i].name@ != s[j].name@);
    }
}

/// What a subscribe request does to the registry map: a fresh channel
/// entry, a new handle appended, or nothing when the handle is
/// already there.
pub open spec fn spec_subscribe(m: Map<Seq<u8>, Seq<u64>>, chan: Seq<u8>, sub: u64) -> Map<
    Seq<u8>,
    Seq<u64>,
> {
    if m.contains_key(chan) {
        if m[chan].contains(sub) {
            m
        } else {
            m.insert(chan, m[chan].push(sub))
        }
    } else {
        m.insert(chan, seq![sub])
    }
}

/// The predicate that keeps every handle but `sub`.
pub open spec fn keeps(sub: u64) -> spec_fn(u64) -> bool {
    |x: u64| x != sub
}

/// What an unsubscribe request does: the handle leaves the channel's
/// list, order kept, and an emptied entry is reclaimed.
pub open spec fn spec_unsubscribe(m: Map<Seq<u8>, Seq<u64>>, chan: Seq<u8>, sub: u64) -> Map<
    Seq<u8>,
    Seq<u64>,
> {
    if m.contains_key(chan) {
        let rest = m[chan].filter(keeps(sub));
        if rest.len() == 0 {
            m.remove(chan)
        } else {
            m.insert(chan, rest)
        }
    } else {
        m
    }
}

/// What connection teardown does: the handle leaves every channel,
/// and entries it emptied are reclaimed.
pub open spec fn spec_remove_everywhere(m: Map<Seq<u8>, Seq<u64>>, sub: u64) -> Map<
    Seq<u8>,
    Seq<u64>,
> {
    Map::new(
        |k: Seq<u8>| m.contains_key(k) && m[k].filter(keeps(sub)).len() > 0,
        |k: Seq<u8>| m[k].filter(keeps(sub)),
    )
}

/// How often `x` stands in `s`.
pub open spec fn count_in(s: Seq<u64>, x: u64) -> nat
    decreases s.len(),
{
    if s.len() == 0 {
        0
    } else {
        (if s[0] == x {
            1nat
        } else {
            0nat
        }) + count_in(s.drop_first(), x)
    }
}

proof fn lemma_count_distinct(s: Seq<u64>, x: u64)
    requires
        distinct_subs(s),
    ensures
        count_in(s, x) == if s.contains(x) {
            1nat
        } else {
            0nat
        },
    decreases s.len(),
{
    if s.len() == 0 {
    } else {
        let t = s.drop_first();
        assert(forall|i: int, j: int| 0 <= i < j < t.len() ==> t[i] != t[j]);
        lemma_count_distinct(t, x);
        if s[0] == x {
            if t.contains(x) {
                let w = choose|w: int| 0 <= w < t.len() && t[w] == x;
                assert(s[w + 1] == x);
                assert(false);
            }
            assert(s.contains(x));
        } else {
            if s.contains(x) {
                let w = choose|w: int| 0 <= w < s.len() && s[w] == x;
                assert(t[w - 1] == x);
                assert(t.contains(x));
            } else {
                if t.contains(x) {
                    let w = choose|w: int| 0 <= w < t.len() && t[w] == x;
                    assert(s[w + 1] == x);
                    assert(false);
                }
            }
        }
    }
}

proof fn lemma_filter_distinct(s: Seq<u64>, pred: spec_fn(u64) -> bool)
    requires
        distinct_subs(s),
    ensures
        distinct_subs(s.filter(pred)),
    decreases s.len(),
{
    reveal(Seq::filter);
    if s.len() == 0 {
    } else {
        let rest = s.drop_last();
        assert(forall|a: int, b: int| 0 <= a < b < rest.len() ==> rest[a] != rest[b]);
        lemma_filter_distinct(rest, pred);
        if pred(s.last()) {
            let f = rest.filter(pred).push(s.last());
            assert forall|a: int, b: int| 0 <= a < b < f.len() implies f[a] != f[b] by {
                if b < f.len() - 1 {
                    assert(f[a] == rest.filter(pred)[a] && f[b] == rest.filter(pred)[b]);
                } else {
                    assert(f[a] == rest.filter(pred)[a]);
                    assert(rest.filter(pred).contains(f[a]));
                    rest.lemma_filter_contains_rev(pred, f[a]);
                    let w = choose|w: int| 0 <= w < rest.len() && rest[w] == f[a];
                    assert(s[w] == f[a]);
                    assert(s[w] != s.last());
                }
            }
            assert(s.filter(pred) == f);
        }
    }
}

/// The subscription registry: channel name to the write handles of
/// the channel's current subscribers. A handle is a small integer the
/// embedding program maps to one connection's locked write half.
pub struct SubRegistry {
    channels: Vec<ChannelEntry>,
}

impl View for SubRegistry {
    type V = Map<Seq<u8>, Seq<u64>>;

    closed spec fn view(&self) -> Map<Seq<u8>, Seq<u64>> {
        spec_chan_map(self.channels@)
    }
}

/// Remove every occurrence of `sub`, keeping the order.
fn filter_out(subs: &Vec<u64>, sub: u64) -> (r: Vec<u64>)
    ensures
        r@ == subs@.filter(keeps(sub)),
{
    let ghost pred = keeps(sub);
    let mut r: Vec<u64> = Vec::new();
    let mut i: usize = 0;
    proof {
        reveal(Seq::filter);
        assert(subs@.take(0).filter(pred) =~= Seq::<u64>::empty());
    }
    while i < subs.len()
        invariant
            i <= subs@.len(),
            pred == keeps(sub),
            r@ == subs@.take(i as int).filter(pred),
        decreases subs@.len() - i,
    {
        let x = subs[i];
        proof {
            reveal(Seq::filter);
            let t = subs@.take(i + 1);
            assert(t.drop_last() =~= subs@.take(i as int));
            assert(t.last() == subs@[i as int]);
            assert(t.filter(pred) == if pred(t.last()) {
                t.drop_last().filter(pred).push(t.last())
            } else {
                t.drop_last().filter(pred)
            });
        }
        if x != sub {
            r.push(x);
        }
        i = i + 1;
    }
    proof {
        assert(subs@.take(subs@.len() as int) =~= subs@);
    }
    r
}

impl SubRegistry {
    /// Every channel name once; every handle once per channel.
    pub closed spec fn wf(self) -> bool {
        distinct_chans(self.channels@) && forall|i: int|
            0 <= i < self.channels@.len() ==> distinct_subs(#[trigger] self.channels@[i].subs@)
    }

    /// An empty registry.
    pub fn new() -> (r: SubRegistry)
        ensures
            r.wf(),
            r@ == Map::<Seq<u8>, Seq<u64>>::empty(),
    {
        let r = SubRegistry { channels: Vec::new() };
        proof {
            assert(r@ =~= Map::<Seq<u8>, Seq<u64>>::empty());
        }
        r
    }

    fn position(&self, channel: &[u8]) -> (r: Option<usize>)
        ensures
            match r {
                Some(i) => i < self.channels@.len() && self.channels@[i as int].name@ == channel@,
                None => !spec_has_chan(self.channels@, channel@),
            },
    {
        let mut i: usize = 0;
        while i < self.channels.len()
            invariant
                i <= self.channels@.len(),
                forall|k: int| 0 <= k < i ==> #[trigger] self.channels@[k].name@ != channel@,
            decreases self.channels@.len() - i,
        {
            if bytes_eq(self.channels[i].name.as_slice(), channel) {
                return Some(i);
            }
            i = i + 1;
        }
        None
    }

    proof fn lemma_replace(s0: Seq<ChannelEntry>, s1: Seq<ChannelEntry>, i: int, v: Seq<u64>)
        requires
            distinct_chans(s0),
            s0.len() == s1.len(),
            0 <= i < s0.len(),
            s1[i].name@ == s0[i].name@,
            s1[i].subs@ == v,
            forall|j: int| 0 <= j < s1.len() && j != i ==> s1[j] == s0[j],
        ensures
            distinct_chans(s1),
            spec_chan_map(s1) == spec_chan_map(s0).insert(s0[i].name@, v),
    {
        let k = s0[i].name@;
        assert forall|j: int| 0 <= j < s1.len() implies #[trigger] s1[j].name@ == s0[j].name@ by {
            if j != i {
                assert(s1[j] == s0[j]);
            }
        }
        assert(distinct_chans(s1));
        let m0 = spec_chan_map(s0);
        let m1 = spec_chan_map(s1);
        assert forall|key: Seq<u8>| #[trigger] spec_has_chan(s1, key) implies spec_has_chan(
            s0,
            key,
        ) by {
            let w = choose|w: int| 0 <= w < s1.len() && s1[w].name@ == key;
            assert(s0[w].name@ == key);
        }
        assert forall|key: Seq<u8>| #[trigger] spec_has_chan(s0, key) implies spec_has_chan(
            s1,
            key,
        ) by {
            let w = choose|w: int| 0 <= w < s0.len() && s0[w].name@ == key;
            assert(s1[w].name@ == key);
        }
        assert(spec_has_chan(s1, k));
        assert forall|key: Seq<u8>| #[trigger] spec_has_chan(s1, key) implies m1[key] == (
        if key == k {
            v
        } else {
            m0[key]
        }) by {
            let w = choose|w: int| 0 <= w < s1.len() && s1[w].name@ == key;
            lemma_chan_map_index(s1, w);
            if key == k {
                if w != i {
                    assert(s1[w].name@ != s1[i].name@);
                }
                assert(m1[key] == v);
            } else {
                assert(w != i);
                assert(s1[w] == s0[w]);
                lemma_chan_map_index(s0, w);
            }
        }
        assert(m1 =~= m0.insert(k, v));
    }

    proof fn lemma_push(s0: Seq<ChannelEntry>, s1: Seq<ChannelEntry>, k: Seq<u8>, v: Seq<u64>)
        requires
            distinct_chans(s0),
            !spec_has_chan(s0, k),
            s1.len() == s0.len() + 1,
            forall|j: int| 0 <= j < s0.len() ==> s1[j] == s0[j],
            s1[s0.len() as int].name@ == k,
            s1[s0.len() as int].subs@ == v,
        ensures
            distinct_chans(s1),
            spec_chan_map(s1) == spec_chan_map(s0).insert(k, v),
    {
        let n = s0.len() as int;
        assert forall|a: int, b: int| 0 <= a < b < s1.len() implies s1[a].name@ != s1[b].name@ by {
            if b < n {
                assert(s1[a] == s0[a] && s1[b] == s0[b]);
            } else {
                assert(s1[a] == s0[a]);
                assert(spec_has_chan(s0, s0[a].name@));
            }
        }
        let m0 = spec_chan_map(s0);
        let m1 = spec_chan_map(s1);
        assert forall|key: Seq<u8>| #[trigger] spec_has_chan(s1, key) implies (key == k
            || spec_has_chan(s0, key)) by {
            let w = choose|w: int| 0 <= w < s1.len() && s1[w].name@ == key;
            if w < n {
                assert(s0[w].name@ == key);
            }
        }
        assert forall|key: Seq<u8>| #[trigger] spec_has_chan(s0, key) implies spec_has_chan(
            s1,
            key,
        ) by {
            let w = choose|w: int| 0 <= w < s0.len() && s0[w].name@ == key;
            assert(s1[w].name@ == key);
        }
        assert(spec_has_chan(s1, k));
        assert forall|key: Seq<u8>| #[trigger] spec_has_chan(s1, key) implies m1[key] == (
        if key == k {
            v
        } else {
            m0[key]
        }) by {
            let w = choose|w: int| 0 <= w < s1.len() && s1[w].name@ == key;
            lemma_chan_map_index(s1, w);
            if key == k {
                if w != n {
                    assert(s1[w].name@ != s1[n].name@);
                }
                assert(m1[key] == v);
            } else {
                assert(w != n);
                assert(s1[w] == s0[w]);
                lemma_chan_map_index(s0, w);
            }
        }
        assert(m1 =~= m0.insert(k, v));
    }

    proof fn lemma_remove(s0: Seq<ChannelEntry>, s1: Seq<ChannelEntry>, i: int)
        requires
            distinct_chans(s0),
            0 <= i < s0.len(),
            s1 == s0.remove(i),
        ensures
            distinct_chans(s1),
            spec_chan_map(s1) == spec_chan_map(s0).remove(s0[i].name@),
    {
        let k = s0[i].name@;
        assert forall|a: int, b: int| 0 <= a < b < s1.len() implies s1[a].name@ != s1[b].name@ by {
            let a0 = if a < i {
                a
            } else {
                a + 1
            };
            let b0 = if b < i {
                b
            } else {
                b + 1
            };
            assert(s1[a] == s0[a0] && s1[b] == s0[b0]);
        }
        let m0 = spec_chan_map(s0);
        let m1 = spec_chan_map(s1);
        assert forall|key: Seq<u8>| #[trigger] spec_has_chan(s1, key) implies spec_has_chan(
            s0,
            key,
        ) && key != k by {
            let w = choose|w: int| 0 <= w < s1.len() && s1[w].name@ == key;
            let w0 = if w < i {
                w
            } else {
                w + 1
            };
            assert(s0[w0].name@ == key);
            if w0 < i {
                assert(s0[w0].name@ != s0[i].name@);
            } else {
                assert(s0[i].name@ != s0[w0].name@);
            }
        }
        assert forall|key: Seq<u8>|
            #[trigger] spec_has_chan(s0, key) && key != k implies spec_has_chan(s1, key) by {
            let w = choose|w: int| 0 <= w < s0.len() && s0[w].name@ == key;
            if w < i {
                assert(s1[w].name@ == key);
            } else {
                assert(w != i);
                assert(s1[w - 1].name@ == key);
            }
        }
        assert forall|key: Seq<u8>| #[trigger] spec_has_chan(s1, key) implies m1[key]
            == m0[key] by {
            let w = choose|w: int| 0 <= w < s1.len() && s1[w].name@ == key;
            lemma_chan_map_index(s1, w);
            let w0 = if w < i {
                w
            } else {
                w + 1
            };
            assert(s1[w] == s0[w0]);
            lemma_chan_map_index(s0, w0);
        }
        assert(m1 =~= m0.remove(k));
    }

    /// Idempotent insertion: a connection appears at most once per
    /// channel, so a second subscribe changes nothing.
    pub fn subscribe(&mut self, channel: &[u8], subscriber: u64)
        requires
            old(self).wf(),
        ensures
            final(self).wf(),
            final(self)@ == spec_subscribe(old(self)@, channel@, subscriber),
            final(self)@.contains_key(channel@),
            count_in(final(self)@[channel@], subscriber) == 1,
    {
        let ghost s0 = self.channels@;
        let pos = self.position(channel);
        match pos {
            Some(i) => {
                proof {
                    lemma_chan_map_index(s0, i as int);
                }
                if contains_u64(&self.channels[i].subs, subscriber) {
                    proof {
                        lemma_count_distinct(s0[i as int].subs@, subscriber);
                    }
                } else {
                    let entry = &mut self.channels[i];
                    entry.subs.push(subscriber);
                    proof {
                        let s1 = self.channels@;
                        let v = s0[i as int].subs@.push(subscriber);
                        assert(s1[i as int].subs@ == v);
                        assert(distinct_subs(v)) by {
                            assert forall|a: int, b: int| 0 <= a < b < v.len() implies v[a]
                                != v[b] by {
                                if b < v.len() - 1 {
                                    assert(s0[i as int].subs@[a] == v[a]);
                                } else {
                                    assert(v[a] == s0[i as int].subs@[a]);
                                    assert(s0[i as int].subs@.contains(v[a]));
                                }
                            }
                        }
                        Self::lemma_replace(s0, s1, i as int, v);
                        lemma_chan_map_index(s1, i as int);
                        lemma_count_distinct(v, subscriber);
                        assert(v.contains(subscriber)) by {
                            assert(v[v.len() - 1] == subscriber);
                        }
                    }
                }
            },
            None => {
                let mut subs: Vec<u64> = Vec::new();
                subs.push(subscriber);
                let name = slice_to_vec(channel);
                self.channels.push(ChannelEntry { name, subs });
                proof {
                    let s1 = self.channels@;
                    let v = seq![subscriber];
                    assert(s1[s0.len() as int].subs@ =~= v);
                    Self::lemma_push(s0, s1, channel@, v);
                    lemma_chan_map_index(s1, s0.len() as int);
                    assert(distinct_subs(v));
                    lemma_count_distinct(v, subscriber);
                    assert(v.contains(subscriber)) by {
                        assert(v[0] == subscriber);
                    }
                }
            },
        }
    }

    /// Exclusive removal; a no-op when the handle is absent, and an
    /// emptied entry is reclaimed.
    pub fn unsubscribe(&mut self, channel: &[u8], subscriber: u64)
        requires
            old(self).wf(),
        ensures
            final(self).wf(),
            final(self)@ == spec_unsubscribe(old(self)@, channel@, subscriber),
    {
        let ghost s0 = self.channels@;
        let pos = self.position(channel);
        match pos {
            Some(i) => {
                proof {
                    lemma_chan_map_index(s0, i as int);
                }
                let rest = filter_out(&self.channels[i].subs, subscriber);
                if rest.len() == 0 {
                    self.channels.remove(i);
                    proof {
                        Self::lemma_remove(s0, self.channels@, i as int);
                        let s1 = self.channels@;
                        assert forall|j: int| 0 <= j < s1.len() implies distinct_subs(
                            #[trigger] s1[j].subs@,
                        ) by {
                            if j < i {
                                assert(s1[j] == s0[j]);
                            } else {
                                assert(s1[j] == s0[j + 1]);
                            }
                        }
                    }
                } else {
                    let ghost v = rest@;
                    let entry = &mut self.channels[i];
                    entry.subs = rest;
                    proof {
                        let s1 = self.channels@;
                        lemma_filter_distinct(s0[i as int].subs@, keeps(subscriber));
                        Self::lemma_replace(s0, s1, i as int, v);
                        assert forall|j: int| 0 <= j < s1.len() implies distinct_subs(
                            #[trigger] s1[j].subs@,
                        ) by {
                            if j != i {
                                assert(s1[j] == s0[j]);
                            }
                        }
                    }
                }
            },
            None => {},
        }
    }

    /// The write handles a publish to `channel` must reach: the
    /// channel's current subscribers, in subscription order. The
    /// frame itself is then written to each handle independently.
    pub fn publish(&self, channel: &[u8]) -> (r: Vec<u64>)
        requires
            self.wf(),
        ensures
            r@ == if self@.contains_key(channel@) {
                self@[channel@]
            } else {
                Seq::<u64>::empty()
            },
            distinct_subs(r@),
    {
        match self.position(channel) {
            Some(i) => {
                proof {
                    lemma_chan_map_index(self.channels@, i as int);
                }
                slice_to_vec(self.channels[i].subs.as_slice())
            },
            None => {
                Vec::new()
            },
        }
    }

    /// `e` is what some entry of the first `i` of `s0` becomes once
    /// `pred` has filtered its subscribers, and it kept at least one.
    spec fn swept_from(
        e: ChannelEntry,
        s0: Seq<ChannelEntry>,
        i: int,
        pred: spec_fn(u64) -> bool,
    ) -> bool {
        exists|l: int|
            0 <= l < i && e.name@ == (#[trigger] s0[l]).name@ && e.subs@ == s0[l].subs@.filter(pred)
                && e.subs@.len() > 0
    }

    /// Connection teardown: the handle leaves every channel it is in,
    /// and entries it emptied are reclaimed.
    #[verifier::rlimit(30)]
    pub fn remove_everywhere(&mut self, subscriber: u64)
        requires
            old(self).wf(),
        ensures
            final(self).wf(),
            final(self)@ == spec_remove_everywhere(old(self)@, subscriber),
    {
        let ghost s0 = self.channels@;
        let ghost pred = keeps(subscriber);
        let mut kept: Vec<ChannelEntry> = Vec::new();
        let mut i: usize = 0;
        while i < self.channels.len()
            invariant
                i <= self.channels@.len(),
                self.channels@ == s0,
                old(self).wf(),
                pred == keeps(subscriber),
                forall|j: int|
                    0 <= j < kept@.len() ==> Self::swept_from(
                        #[trigger] kept@[j],
                        s0,
                        i as int,
                        pred,
                    ),
                forall|l: int|
                    0 <= l < i && (#[trigger] s0[l]).subs@.filter(pred).len() > 0
                        ==> spec_has_chan(kept@, s0[l].name@),
                distinct_chans(kept@),
            decreases self.channels@.len() - i,
        {
            let ghost kept0 = kept@;
            let rest = filter_out(&self.channels[i].subs, subscriber);
            if rest.len() > 0 {
                let name = slice_to_vec(self.channels[i].name.as_slice());
                let ghost e = ChannelEntry { name: name, subs: rest };
                proof {
                    let k1 = kept0.push(e);
                    assert forall|a: int, b: int| 0 <= a < b < k1.len() implies k1[a].name@
                        != k1[b].name@ by {
                        if b < k1.len() - 1 {
                            assert(k1[a] == kept0[a] && k1[b] == kept0[b]);
                        } else {
                            assert(k1[a] == kept0[a]);
                            assert(Self::swept_from(kept0[a], s0, i as int, pred));
                            let l = choose|l: int|
                                0 <= l < i && kept0[a].name@ == (#[trigger] s0[l]).name@
                                    && kept0[a].subs@ == s0[l].subs@.filter(pred)
                                    && kept0[a].subs@.len() > 0;
                            assert(s0[l].name@ != s0[i as int].name@);
                        }
                    }
                }
                kept.push(ChannelEntry { name, subs: rest });
                proof {
                    assert(kept@ == kept0.push(e));
                    assert(Self::swept_from(e, s0, i + 1, pred));
                    assert forall|j: int| 0 <= j < kept@.len() implies Self::swept_from(
                        #[trigger] kept@[j],
                        s0,
                        i + 1,
                        pred,
                    ) by {
                        if j < kept@.len() - 1 {
                            assert(kept@[j] == kept0[j]);
                            assert(Self::swept_from(kept0[j], s0, i as int, pred));
                        } else {
                            assert(kept@[j] == e);
                        }
                    }
                    assert forall|l: int|
                        0 <= l < i + 1 && (#[trigger] s0[l]).subs@.filter(pred).len()
                            > 0 implies spec_has_chan(kept@, s0[l].name@) by {
                        if l < i {
                            let w = choose|w: int|
                                0 <= w < kept0.len() && kept0[w].name@ == s0[l].name@;
                            assert(kept@[w].name@ == s0[l].name@);
                        } else {
                            assert(kept@[kept@.len() - 1].name@ == s0[l].name@);
                        }
                    }
                }
            } else {
                proof {
                    assert forall|j: int| 0 <= j < kept@.len() implies Self::swept_from(
                        #[trigger] kept@[j],
                        s0,
                        i + 1,
                        pred,
                    ) by {
                        assert(Self::swept_from(kept@[j], s0, i as int, pred));
                    }
                    assert forall|l: int|
                        0 <= l < i + 1 && (#[trigger] s0[l]).subs@.filter(pred).len()
                            > 0 implies spec_has_chan(kept@, s0[l].name@) by {
                        assert(l != i);
                    }
                }
            }
            i = i + 1;
        }
        self.channels = kept;
        proof {
            let s1 = self.channels@;
            let n = s0.len() as int;
            let m0 = spec_chan_map(s0);
            let m1 = spec_chan_map(s1);
            let target = spec_remove_everywhere(m0, subscriber);
            assert forall|j: int| 0 <= j < s1.len() implies distinct_subs(
                #[trigger] s1[j].subs@,
            ) by {
                assert(Self::swept_from(s1[j], s0, n, pred));
                let l = choose|l: int|
                    0 <= l < n && s1[j].name@ == (#[trigger] s0[l]).name@ && s1[j].subs@
                        == s0[l].subs@.filter(pred) && s1[j].subs@.len() > 0;
                lemma_filter_distinct(s0[l].subs@, pred);
            }
            assert forall|key: Seq<u8>| #[trigger] m1.contains_key(key) implies target.contains_key(
                key,
            ) && m1[key] == target[key] by {
                let w = choose|w: int| 0 <= w < s1.len() && s1[w].name@ == key;
                lemma_chan_map_index(s1, w);
                assert(Self::swept_from(s1[w], s0, n, pred));
                let l = choose|l: int|
                    0 <= l < n && s1[w].name@ == (#[trigger] s0[l]).name@ && s1[w].subs@
                        == s0[l].subs@.filter(pred) && s1[w].subs@.len() > 0;
                lemma_chan_map_index(s0, l);
            }
            assert forall|key: Seq<u8>| #[trigger] target.contains_key(key) implies m1.contains_key(
                key,
            ) by {
                assert(spec_has_chan(s0, key));
                let l = spec_chan_index(s0, key);
                assert(0 <= l < n && s0[l].name@ == key);
                lemma_chan_map_index(s0, l);
                assert(s0[l].subs@.filter(pred).len() > 0);
                assert(spec_has_chan(s1, key));
            }
            assert(m1 =~= target);
        }
    }
}

/// Whether `x` is in the list.
fn contains_u64(list: &Vec<u64>, x: u64) -> (r: bool)
    ensures
        r == list@.contains(x),
{
    let mut i: usize = 0;
    while i < list.len()
        invariant
            i <= list@.len(),
            forall|k: int| 0 <= k < i ==> list@[k] != x,
        decreases list@.len() - i,
    {
        if list[i] == x {
            return true;
        }
        i = i + 1;
    }
    false
}

/// Fanout isolation: tearing one failed subscriber down never costs
/// another subscriber of the same channel its delivery. After `a`
/// leaves everywhere, a publish to the channel still reaches `b`.
pub proof fn lemma_fanout_isolation(m: Map<Seq<u8>, Seq<u64>>, chan: Seq<u8>, a: u64, b: u64)
    requires
        a != b,
        m.contains_key(chan),
        m[chan].contains(b),
    ensures
        spec_remove_everywhere(m, a).contains_key(chan),
        spec_remove_everywhere(m, a)[chan].contains(b),
{
    let pred = keeps(a);
    let w = choose|w: int| 0 <= w < m[chan].len() && m[chan][w] == b;
    assert(pred(m[chan][w]));
    m[chan].lemma_filter_contains(pred, w);
}

/// Subscribing twice is subscribing once: the registry map does not
/// change, and the handle stands in the channel's list exactly once,
/// so one publish delivers to it exactly once.
pub proof fn lemma_subscribe_idempotent(m: Map<Seq<u8>, Seq<u64>>, chan: Seq<u8>, sub: u64)
    requires
        m.contains_key(chan) ==> distinct_subs(m[chan]),
    ensures
        spec_subscribe(spec_subscribe(m, chan, sub), chan, sub) == spec_subscribe(m, chan, sub),
        count_in(spec_subscribe(m, chan, sub)[chan], sub) == 1,
{
    let m1 = spec_subscribe(m, chan, sub);
    if m.contains_key(chan) {
        if m[chan].contains(sub) {
            lemma_count_distinct(m[chan], sub);
        } else {
            let v = m[chan].push(sub);
            assert(m1[chan] == v);
            assert(v.contains(sub)) by {
                assert(v[v.len() - 1] == sub);
            }
            assert(distinct_subs(v)) by {
                assert forall|a: int, b: int| 0 <= a < b < v.len() implies v[a] != v[b] by {
                    if b < v.len() - 1 {
                        assert(v[a] == m[chan][a] && v[b] == m[chan][b]);
                    } else {
                        assert(v[a] == m[chan][a]);
                        assert(m[chan].contains(v[a]));
                    }
                }
            }
            lemma_count_distinct(v, sub);
        }
    } else {
        let v = seq![sub];
        assert(m1[chan] == v);
        assert(v.contains(sub)) by {
            assert(v[0] == sub);
        }
        assert(distinct_subs(v));
        lemma_count_distinct(v, sub);
    }
}

} // verus!
