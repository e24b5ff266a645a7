use vstd::prelude::*;
use vstd::slice::slice_to_vec;
use crate::bytefmt::{bytes_eq, push_bytes};
use crate::channel_list::{spec_split_channels, split_channels};

verus! {

/// A name for what sha2's `Sha256` computes: the digest is a function
/// of the input bytes alone.
pub uninterp spec fn sha256_of(data: Seq<u8>) -> Seq<u8>;

/// Relies on sha2's `Sha256::digest`: one digest over all of `data`,
/// 32 bytes long, a function of `data` alone.
#[verifier::external_body]
fn sha256_digest(data: &[u8]) -> (r: Vec<u8>)
    ensures
        r@ == sha256_of(data@),
        r@.len() == 32,
{
    <sha2::Sha256 as sha2::Digest>::digest(data).to_vec()
}

/// The expected response to a challenge: SHA-256 over the nonce
/// followed by the owner's secret.
pub fn generate_sha(secret: &[u8], nonce: &[u8]) -> (r: Vec<u8>)
    ensures
        r@ == sha256_of(nonce@ + secret@),
        r@.len() == 32,
{
    let mut data: Vec<u8> = Vec::new();
    push_bytes(&mut data, nonce);
    push_bytes(&mut data, secret);
    sha256_digest(data.as_slice())
}

/// One row of the backing credential store, as plain bytes: the owner
/// name, the secret, and two comma-separated channel lists.
pub struct AuthDbObject {
    pub owner: Vec<u8>,
    pub secret: Vec<u8>,
    pub allow_sub: Vec<u8>,
    pub allow_pub: Vec<u8>,
}

/// One owner's cached credentials: the secret and the channels the
/// owner may subscribe or publish to.
pub struct AuthObject {
    pub secret: Vec<u8>,
    pub allow_sub: Vec<Vec<u8>>,
    pub allow_pub: Vec<Vec<u8>>,
}

/// What an `AuthObject` means: the secret bytes and the two channel
/// sets.
pub struct AuthObjectView {
    pub secret: Seq<u8>,
    pub allow_sub: Set<Seq<u8>>,
    pub allow_pub: Set<Seq<u8>>,
}

/// The set of names a sequence of byte strings holds.
pub open spec fn name_set(names: Seq<Seq<u8>>) -> Set<Seq<u8>> {
    Set::new(|s: Seq<u8>| names.contains(s))
}

impl View for AuthObject {
    type V = AuthObjectView;

    open spec fn view(&self) -> AuthObjectView {
        AuthObjectView {
            secret: self.secret@,
            allow_sub: name_set(self.allow_sub@.map_values(|v: Vec<u8>| v@)),
            allow_pub: name_set(self.allow_pub@.map_values(|v: Vec<u8>| v@)),
        }
    }
}

/// Whether `name` is in the list, compared byte for byte.
fn contains_name(list: &Vec<Vec<u8>>, name: &[u8]) -> (r: bool)
    ensures
        r == name_set(list@.map_values(|v: Vec<u8>| v@)).contains(name@),
{
    let ghost names = list@.map_values(|v: Vec<u8>| v@);
    let mut i: usize = 0;
    while i < list.len()
        invariant
            i <= list@.len(),
            names == list@.map_values(|v: Vec<u8>| v@),
            forall|k: int| 0 <= k < i ==> #[trigger] names[k] != name@,
        decreases list@.len() - i,
    {
        if bytes_eq(list[i].as_slice(), name) {
            proof {
                assert(names[i as int] == name@);
            }
            return true;
        }
        i = i + 1;
    }
    proof {
        assert(forall|k: int| 0 <= k < names.len() ==> #[trigger] names[k] != name@);
    }
    false
}

/// The cache entry a credential-store row describes: the secret as
/// is, each channel list split at its commas and trimmed.
pub open spec fn spec_cached_object(row: AuthDbObject) -> AuthObjectView {
    AuthObjectView {
        secret: row.secret@,
        allow_sub: name_set(spec_split_channels(row.allow_sub@)),
        allow_pub: name_set(spec_split_channels(row.allow_pub@)),
    }
}

/// Build the cache entry a credential-store row describes.
fn cached_object(row: &AuthDbObject) -> (r: AuthObject)
    ensures
        r@ == spec_cached_object(*row),
{
    let r = AuthObject {
        secret: slice_to_vec(row.secret.as_slice()),
        allow_sub: split_channels(row.allow_sub.as_slice()),
        allow_pub: split_channels(row.allow_pub.as_slice()),
    };
    r
}

pub open spec fn distinct_owners(s: Seq<(Vec<u8>, AuthObject)>) -> bool {
    forall|i: int, j: int| 0 <= i < j < s.len() ==> s[i].0@ != s[j].0@
}

pub open spec fn spec_has_owner(s: Seq<(Vec<u8>, AuthObject)>, k: Seq<u8>) -> bool {
    exists|i: int| 0 <= i < s.len() && s[i].0@ == k
}

pub open spec fn spec_owner_index(s: Seq<(Vec<u8>, AuthObject)>, k: Seq<u8>) -> int {
    choose|i: int| 0 <= i < s.len() && s[i].0@ == k
}

/// The map an entry list stands for, one value per owner name.
pub open spec fn spec_store_map(s: Seq<(Vec<u8>, AuthObject)>) -> Map<Seq<u8>, AuthObjectView> {
    Map::new(|k: Seq<u8>| spec_has_owner(s, k), |k: Seq<u8>| s[spec_owner_index(s, k)].1@)
}

proof fn lemma_store_map_index(s: Seq<(Vec<u8>, AuthObject)>, i: int)
    requires
        distinct_owners(s),
        0 <= i < s.len(),
    ensures
        spec_store_map(s).contains_key(s[i].0@),
        spec_store_map(s)[s[i].0@] == s[i].1@,
{
    let k = s[i].0@;
    assert(spec_has_owner(s, k));
    let j = spec_owner_index(s, k);
    assert(0 <= j < s.len() && s[j].0@ == k);
    if j < i {
        assert(s[j].0@ != s[i].0@);
    } else if i < j {
        assert(s[i].0@ != s[j].0@);
    }
    assert(j == i);
}

/// The in-memory authorization cache: owner name to credentials. The
/// core only reads it; a store source fills and refreshes it.
pub struct AuthStore {
    entries: Vec<(Vec<u8>, AuthObject)>,
}

impl View for AuthStore {
    type V = Map<Seq<u8>, AuthObjectView>;

    closed spec fn view(&self) -> Map<Seq<u8>, AuthObjectView> {
        spec_store_map(self.entries@)
    }
}

/// A source that can fill and refresh the cache from a backing
/// credential store; the store itself lives outside the core.
pub trait AuthStoreSource {
    /// Load every owner's row into the cache.
    fn feed_cache(&self, cache: &mut AuthStore);

    /// Add rows for owners the cache does not hold yet.
    fn update_cache(&self, cache: &mut AuthStore);
}

/// Replace an owner's entry in order, first to last.
pub open spec fn spec_feed(
    m: Map<Seq<u8>, AuthObjectView>,
    rows: Seq<AuthDbObject>,
) -> Map<Seq<u8>, AuthObjectView>
    decreases rows.len(),
{
    if rows.len() == 0 {
        m
    } else {
        spec_feed(m.insert(rows[0].owner@, spec_cached_object(rows[0])), rows.drop_first())
    }
}

/// Insert only the rows whose owner `m0` does not know, in order.
pub open spec fn spec_update(
    m0: Map<Seq<u8>, AuthObjectView>,
    m: Map<Seq<u8>, AuthObjectView>,
    rows: Seq<AuthDbObject>,
) -> Map<Seq<u8>, AuthObjectView>
    decreases rows.len(),
{
    if rows.len() == 0 {
        m
    } else if m0.contains_key(rows[0].owner@) {
        spec_update(m0, m, rows.drop_first())
    } else {
        spec_update(m0, m.insert(rows[0].owner@, spec_cached_object(rows[0])), rows.drop_first())
    }
}

impl AuthStore {
    /// Owner names are distinct, so the entry list is a map.
    pub closed spec fn wf(self) -> bool {
        distinct_owners(self.entries@)
    }

    /// An empty cache.
    pub fn new() -> (r: AuthStore)
        ensures
            r.wf(),
            r@ == Map::<Seq<u8>, AuthObjectView>::empty(),
    {
        let r = AuthStore { entries: Vec::new() };
        proof {
            assert(r@ =~= Map::<Seq<u8>, AuthObjectView>::empty());
        }
        r
    }

    fn position(&self, owner: &[u8]) -> (r: Option<usize>)
        ensures
            match r {
                Some(i) => i < self.entries@.len() && self.entries@[i as int].0@ == owner@,
                None => !spec_has_owner(self.entries@, owner@),
            },
    {
        let mut i: usize = 0;
        while i < self.entries.len()
            invariant
                i <= self.entries@.len(),
                forall|k: int| 0 <= k < i ==> #[trigger] self.entries@[k].0@ != owner@,
            decreases self.entries@.len() - i,
        {
            if bytes_eq(self.entries[i].0.as_slice(), owner) {
                return Some(i);
            }
            i = i + 1;
        }
        None
    }

    fn get_object(&self, owner: &[u8]) -> (r: Option<&AuthObject>)
        requires
            self.wf(),
        ensures
            match r {
                Some(obj) => self@.contains_key(owner@) && obj@ == self@[owner@],
                None => !self@.contains_key(owner@),
            },
    {
        match self.position(owner) {
            Some(i) => {
                proof {
                    lemma_store_map_index(self.entries@, i as int);
                }
                Some(&self.entries[i].1)
            },
            None => None,
        }
    }

    /// Check a challenge response: the owner must be known and the
    /// response must be SHA-256 over the nonce followed by the
    /// owner's secret; nothing reveals which of the two failed.
    pub fn auth_user(&self, owner: &[u8], nonce: &[u8], user_sha: &[u8]) -> (r: bool)
        requires
            self.wf(),
        ensures
            r == (self@.contains_key(owner@) && user_sha@ == sha256_of(
                nonce@ + self@[owner@].secret,
            )),
    {
        match self.get_object(owner) {
            None => false,
            Some(obj) => {
                let expected = generate_sha(obj.secret.as_slice(), nonce);
                bytes_eq(expected.as_slice(), user_sha)
            },
        }
    }

    /// Whether the owner is known and may publish to the channel.
    pub fn auth_pub(&self, owner: &[u8], pub_chan: &[u8]) -> (r: bool)
        requires
            self.wf(),
        ensures
            r == (self@.contains_key(owner@) && self@[owner@].allow_pub.contains(pub_chan@)),
    {
        match self.get_object(owner) {
            None => false,
            Some(obj) => contains_name(&obj.allow_pub, pub_chan),
        }
    }

    /// Whether the owner is known and may subscribe to the channel.
    pub fn auth_sub(&self, owner: &[u8], sub_chan: &[u8]) -> (r: bool)
        requires
            self.wf(),
        ensures
            r == (self@.contains_key(owner@) && self@[owner@].allow_sub.contains(sub_chan@)),
    {
        match self.get_object(owner) {
            None => false,
            Some(obj) => contains_name(&obj.allow_sub, sub_chan),
        }
    }

    /// Create or replace one owner's entry.
    fn insert_record(&mut self, owner: Vec<u8>, obj: AuthObject)
        requires
            old(self).wf(),
        ensures
            final(self).wf(),
            final(self)@ == old(self)@.insert(owner@, obj@),
    {
        let ghost s0 = self.entries@;
        let pos = self.position(owner.as_slice());
        let ghost k = owner@;
        let ghost v = obj@;
        match pos {
            Some(i) => {
                self.entries.set(i, (owner, obj));
                proof {
                    let s1 = self.entries@;
                    assert forall|j: int| 0 <= j < s1.len() implies #[trigger] s1[j].0@
                        == s0[j].0@ by {
                        if j != i {
                            assert(s1[j] == s0[j]);
                        }
                    }
                    assert(distinct_owners(s1));
                    Self::lemma_same_keys_replace(s0, s1, i as int, k, v);
                }
            },
            None => {
                self.entries.push((owner, obj));
                proof {
                    let s1 = self.entries@;
                    assert(distinct_owners(s1)) by {
                        assert forall|a: int, b: int| 0 <= a < b < s1.len() implies s1[a].0@
                            != s1[b].0@ by {
                            if b < s1.len() - 1 {
                                assert(s1[a] == s0[a] && s1[b] == s0[b]);
                            } else {
                                assert(s1[a] == s0[a]);
                                assert(spec_has_owner(s0, s0[a].0@));
                            }
                        }
                    }
                    Self::lemma_push_inserts(s0, s1, k, v);
                }
            },
        }
    }

    proof fn lemma_same_keys_replace(
        s0: Seq<(Vec<u8>, AuthObject)>,
        s1: Seq<(Vec<u8>, AuthObject)>,
        i: int,
        k: Seq<u8>,
        v: AuthObjectView,
    )
        requires
            distinct_owners(s0),
            distinct_owners(s1),
            s0.len() == s1.len(),
            0 <= i < s0.len(),
            s0[i].0@ == k,
            s1[i].0@ == k,
            s1[i].1@ == v,
            forall|j: int| 0 <= j < s1.len() ==> #[trigger] s1[j].0@ == s0[j].0@,
            forall|j: int| 0 <= j < s1.len() && j != i ==> s1[j] == s0[j],
        ensures
            spec_store_map(s1) == spec_store_map(s0).insert(k, v),
    {
        let m0 = spec_store_map(s0);
        let m1 = spec_store_map(s1);
        assert forall|key: Seq<u8>| #[trigger] spec_has_owner(s1, key) implies spec_has_owner(
            s0,
            key,
        ) by {
            let w = choose|w: int| 0 <= w < s1.len() && s1[w].0@ == key;
            assert(s0[w].0@ == key);
        }
        assert forall|key: Seq<u8>| #[trigger] spec_has_owner(s0, key) implies spec_has_owner(
            s1,
            key,
        ) by {
            let w = choose|w: int| 0 <= w < s0.len() && s0[w].0@ == key;
            assert(s1[w].0@ == key);
        }
        assert(spec_has_owner(s1, k));
        assert forall|key: Seq<u8>| #[trigger] spec_has_owner(s1, key) implies m1[key] == (
        if key == k {
            v
        } else {
            m0[key]
        }) by {
            let w = choose|w: int| 0 <= w < s1.len() && s1[w].0@ == key;
            lemma_store_map_index(s1, w);
            if key == k {
                if w != i {
                    assert(s1[w].0@ != s1[i].0@);
                }
                assert(m1[key] == v);
            } else {
                assert(w != i);
                assert(s1[w] == s0[w]);
                lemma_store_map_index(s0, w);
            }
        }
        assert(m1 =~= m0.insert(k, v));
    }

    proof fn lemma_push_inserts(
        s0: Seq<(Vec<u8>, AuthObject)>,
        s1: Seq<(Vec<u8>, AuthObject)>,
        k: Seq<u8>,
        v: AuthObjectView,
    )
        requires
            distinct_owners(s0),
            distinct_owners(s1),
            s1.len() == s0.len() + 1,
            forall|j: int| 0 <= j < s0.len() ==> s1[j] == s0[j],
            s1[s0.len() as int].0@ == k,
            s1[s0.len() as int].1@ == v,
        ensures
            spec_store_map(s1) == spec_store_map(s0).insert(k, v),
    {
        let m0 = spec_store_map(s0);
        let m1 = spec_store_map(s1);
        let n = s0.len() as int;
        assert forall|key: Seq<u8>| #[trigger] spec_has_owner(s1, key) implies (key == k
            || spec_has_owner(s0, key)) by {
            let w = choose|w: int| 0 <= w < s1.len() && s1[w].0@ == key;
            if w < n {
                assert(s0[w].0@ == key);
            }
        }
        assert forall|key: Seq<u8>| #[trigger] spec_has_owner(s0, key) implies spec_has_owner(
            s1,
            key,
        ) by {
            let w = choose|w: int| 0 <= w < s0.len() && s0[w].0@ == key;
            assert(s1[w].0@ == key);
        }
        assert(spec_has_owner(s1, k));
        assert forall|key: Seq<u8>| #[trigger] spec_has_owner(s1, key) implies m1[key] == (
        if key == k {
            v
        } else {
            m0[key]
        }) by {
            let w = choose|w: int| 0 <= w < s1.len() && s1[w].0@ == key;
            lemma_store_map_index(s1, w);
            if key == k {
                if w != n {
                    assert(s1[w].0@ != s1[n].0@);
                }
                assert(m1[key] == v);
            } else {
                assert(w != n);
                assert(s1[w] == s0[w]);
                lemma_store_map_index(s0, w);
            }
        }
        assert(m1 =~= m0.insert(k, v));
    }

    /// Load every row of a full refresh: each row creates or replaces
    /// its owner's entry, in row order.
    pub fn feed_cache(&mut self, rows: &Vec<AuthDbObject>)
        requires
            old(self).wf(),
        ensures
            final(self).wf(),
            final(self)@ == spec_feed(old(self)@, rows@),
    {
        let mut i: usize = 0;
        proof {
            assert(rows@.skip(0) =~= rows@);
        }
        while i < rows.len()
            invariant
                i <= rows@.len(),
                self.wf(),
                spec_feed(old(self)@, rows@) == spec_feed(self@, rows@.skip(i as int)),
            decreases rows@.len() - i,
        {
            let obj = cached_object(&rows[i]);
            let owner = slice_to_vec(rows[i].owner.as_slice());
            proof {
                assert(rows@.skip(i as int)[0] == rows@[i as int]);
                assert(rows@.skip(i as int).drop_first() =~= rows@.skip(i + 1));
            }
            self.insert_record(owner, obj);
            i = i + 1;
        }
        proof {
            assert(rows@.skip(rows@.len() as int) =~= Seq::<AuthDbObject>::empty());
        }
    }

    /// Refresh without touching owners already cached: only rows
    /// whose owner was absent when the refresh began are inserted,
    /// in row order.
    pub fn update_cache(&mut self, rows: &Vec<AuthDbObject>)
        requires
            old(self).wf(),
        ensures
            final(self).wf(),
            final(self)@ == spec_update(old(self)@, old(self)@, rows@),
    {
        let mut fresh: Vec<bool> = Vec::new();
        let mut i: usize = 0;
        while i < rows.len()
            invariant
                i <= rows@.len(),
                self.wf(),
                self@ == old(self)@,
                fresh@.len() == i,
                forall|kk: int|
                    0 <= kk < i ==> #[trigger] fresh@[kk] == !old(self)@.contains_key(
                        rows@[kk].owner@,
                    ),
            decreases rows@.len() - i,
        {
            let absent = match self.get_object(rows[i].owner.as_slice()) {
                Some(_) => false,
                None => true,
            };
            fresh.push(absent);
            i = i + 1;
        }
        let mut j: usize = 0;
        proof {
            assert(rows@.skip(0) =~= rows@);
        }
        while j < rows.len()
            invariant
                j <= rows@.len(),
                self.wf(),
                fresh@.len() == rows@.len(),
                forall|kk: int|
                    0 <= kk < rows@.len() ==> #[trigger] fresh@[kk] == !old(self)@.contains_key(
                        rows@[kk].owner@,
                    ),
                spec_update(old(self)@, old(self)@, rows@) == spec_update(
                    old(self)@,
                    self@,
                    rows@.skip(j as int),
                ),
            decreases rows@.len() - j,
        {
            proof {
                assert(rows@.skip(j as int)[0] == rows@[j as int]);
                assert(rows@.skip(j as int).drop_first() =~= rows@.skip(j + 1));
            }
            if fresh[j] {
                let obj = cached_object(&rows[j]);
                let owner = slice_to_vec(rows[j].owner.as_slice());
                self.insert_record(owner, obj);
            }
            j = j + 1;
        }
        proof {
            assert(rows@.skip(rows@.len() as int) =~= Seq::<AuthDbObject>::empty());
        }
    }
}

} // verus!
