use vstd::multiset::Multiset;
use vstd::prelude::*;
use vstd::relations::{sorted_by, total_ordering};
use vstd::utf8::encode_utf8;

verus! {

/// The 32-bit MurmurHash3 of `data` under `seed`, as the murmur3 crate computes it.
pub uninterp spec fn murmur3_32_of(data: Seq<u8>, seed: u32) -> u32;

/// Relies on `murmur3::murmur3_32`: the 32-bit MurmurHash3 of the bytes read
/// from `data` under `seed`, a function of those alone. Reading from a byte
/// slice never fails, so the error arm is never taken. The crate counts the
/// bytes in a `u32`, so `data` is shorter than 4 GiB.
#[verifier::external_body]
fn murmur3_32(data: &[u8], seed: u32) -> (r: u32)
    requires
        data@.len() <= u32::MAX,
    ensures
        r == murmur3_32_of(data@, seed),
{
    let mut reader: &[u8] = data;
    match murmur3::murmur3_32(&mut reader, seed) {
        Ok(h) => h,
        Err(_) => 0,
    }
}

/// The number of buckets in a ring made with `Ring::new`.
pub const DEFAULT_SIZE: usize = 360;

/// The bytes of an endpoint that are hashed onto the ring.
pub open spec fn endpoint_key(e: String) -> Seq<u8> {
    encode_utf8(e@)
}

/// The hashed bytes of each endpoint, in order.
pub open spec fn endpoint_keys(es: Seq<String>) -> Seq<Seq<u8>> {
    es.map_values(|e: String| endpoint_key(e))
}

/// The byte strings that a list of keys holds.
pub open spec fn views(ks: Seq<Vec<u8>>) -> Seq<Seq<u8>> {
    ks.map_values(|k: Vec<u8>| k@)
}

/// The `share` buckets of node `node`, whose endpoint hashes to `key`: the
/// hash of the endpoint under each seed `0..share`.
pub open spec fn node_buckets(key: Seq<u8>, node: int, share: nat) -> Seq<(u32, usize)> {
    Seq::new(share, |j: int| (murmur3_32_of(key, j as u32), node as usize))
}

/// The buckets of all nodes, node by node, before sorting.
pub open spec fn bucket_list(keys: Seq<Seq<u8>>, share: nat) -> Seq<(u32, usize)>
    decreases keys.len(),
{
    if keys.len() == 0 {
        seq![]
    } else {
        bucket_list(keys.drop_last(), share) + node_buckets(keys.last(), keys.len() - 1, share)
    }
}

/// Buckets ordered by hash, then by node.
pub open spec fn bucket_leq(a: (u32, usize), b: (u32, usize)) -> bool {
    a.0 < b.0 || (a.0 == b.0 && a.1 <= b.1)
}

/// The order in which a ring keeps its buckets.
pub open spec fn bucket_order() -> spec_fn((u32, usize), (u32, usize)) -> bool {
    |a: (u32, usize), b: (u32, usize)| bucket_leq(a, b)
}

/// The buckets of a ring with these endpoints and `size` buckets: each node
/// gets `size / keys.len()` of them, and they are sorted.
pub open spec fn ring_buckets(keys: Seq<Seq<u8>>, size: nat) -> Seq<(u32, usize)> {
    bucket_list(keys, size / keys.len()).sort_by(bucket_order())
}

/// The index of the first bucket whose hash is at least `pos`; the number of
/// buckets if there is none.
pub open spec fn lower_bound(b: Seq<(u32, usize)>, pos: u32) -> nat
    decreases b.len(),
{
    if b.len() == 0 {
        0
    } else if b[0].0 >= pos {
        0
    } else {
        1 + lower_bound(b.drop_first(), pos)
    }
}

/// The node that owns `key` on a ring with buckets `b`: that of the first
/// bucket whose hash is at least the key's, wrapping round to the first bucket.
pub open spec fn owner(b: Seq<(u32, usize)>, key: Seq<u8>) -> usize {
    let i = lower_bound(b, murmur3_32_of(key, 0));
    if i < b.len() {
        b[i as int].1
    } else {
        b[0].1
    }
}

proof fn lemma_bucket_order_total()
    ensures
        total_ordering(bucket_order()),
{
}

proof fn lemma_lower_bound(b: Seq<(u32, usize)>, pos: u32, lo: int)
    requires
        0 <= lo <= b.len(),
        forall|i: int| 0 <= i < lo ==> b[i].0 < pos,
        lo < b.len() ==> b[lo].0 >= pos,
    ensures
        lower_bound(b, pos) == lo,
    decreases b.len(),
{
    if lo > 0 {
        lemma_lower_bound(b.drop_first(), pos, lo - 1);
    }
}

proof fn lemma_bucket_list_nodes(keys: Seq<Seq<u8>>, share: nat)
    ensures
        bucket_list(keys, share).len() == keys.len() * share,
        forall|i: int|
            0 <= i < bucket_list(keys, share).len() ==> #[trigger] bucket_list(keys, share)[i].1
                < keys.len(),
    decreases keys.len(),
{
    if keys.len() > 0 {
        lemma_bucket_list_nodes(keys.drop_last(), share);
        assert((keys.len() - 1) * share + share == keys.len() * share) by (nonlinear_arith);
    }
}

/// Sorts buckets by hash, then by node.
fn sort_buckets(v: Vec<(u32, usize)>) -> (r: Vec<(u32, usize)>)
    ensures
        r@.to_multiset() == v@.to_multiset(),
        sorted_by(r@, bucket_order()),
{
    broadcast use vstd::seq_lib::group_to_multiset_ensures;

    let mut out: Vec<(u32, usize)> = Vec::new();
    let mut i: usize = 0;
    while i < v.len()
        invariant
            0 <= i <= v@.len(),
            out@.to_multiset() == v@.subrange(0, i as int).to_multiset(),
            sorted_by(out@, bucket_order()),
        decreases v@.len() - i,
    {
        let x = v[i];
        let mut j: usize = 0;
        while j < out.len() && (out[j].0 < x.0 || (out[j].0 == x.0 && out[j].1 <= x.1))
            invariant
                0 <= j <= out@.len(),
                forall|k: int| 0 <= k < j ==> bucket_leq(#[trigger] out@[k], x),
            decreases out@.len() - j,
        {
            j = j + 1;
        }
        let ghost before = out@;
        out.insert(j, x);
        proof {
            vstd::seq_lib::to_multiset_insert(before, j as int, x);
            assert(out@ == before.insert(j as int, x));
            assert(v@.subrange(0, i + 1) =~= v@.subrange(0, i as int).push(x));
            vstd::seq_lib::to_multiset_build(v@.subrange(0, i as int), x);
            assert forall|a: int, b: int| 0 <= a < b < out@.len() implies (bucket_order())(
                out@[a],
                out@[b],
            ) by {
                if b < j {
                    assert(out@[a] == before[a] && out@[b] == before[b]);
                } else if b == j {
                    assert(out@[a] == before[a]);
                } else if a < j {
                    assert(out@[a] == before[a] && out@[b] == before[b - 1]);
                } else if a == j {
                    assert(out@[b] == before[b - 1]);
                    assert(!bucket_leq(before[j as int], x));
                    assert((bucket_order())(before[j as int], before[b - 1]));
                } else {
                    assert(out@[a] == before[a - 1] && out@[b] == before[b - 1]);
                }
            }
        }
        i = i + 1;
    }
    proof {
        assert(v@.subrange(0, v@.len() as int) =~= v@);
    }
    out
}

/// A consistent-hash ring: the endpoints of the nodes, in the order given, and
/// the buckets that map hashes to them, sorted.
pub struct Ring {
    endpoints: Vec<String>,
    buckets: Vec<(u32, usize)>,
    size: Ghost<nat>,
}

impl Ring {
    /// The endpoints of the nodes; a node's index is its place here.
    pub closed spec fn endpoints_spec(&self) -> Seq<String> {
        self.endpoints@
    }

    /// The buckets, sorted, each a hash and the index of the node owning it.
    pub closed spec fn buckets_spec(&self) -> Seq<(u32, usize)> {
        self.buckets@
    }

    /// The number of buckets the ring was made with.
    pub closed spec fn size(&self) -> nat {
        self.size@
    }

    /// The hashed bytes of each endpoint.
    pub open spec fn keys(&self) -> Seq<Seq<u8>> {
        endpoint_keys(self.endpoints_spec())
    }

    /// The node that owns `key`.
    pub open spec fn owner_of(&self, key: Seq<u8>) -> usize {
        owner(self.buckets_spec(), key)
    }

    /// The ring has nodes, and its buckets are those that its endpoints and
    /// size determine.
    pub open spec fn wf(&self) -> bool {
        &&& 0 < self.endpoints_spec().len() <= usize::MAX
        &&& self.buckets_spec() == ring_buckets(self.keys(), self.size())
    }

    /// A ring over `urls` with the default number of buckets.
    pub fn new(urls: Vec<String>) -> (r: Ring)
        requires
            urls@.len() > 0,
            forall|i: int| 0 <= i < urls@.len() ==> endpoint_key(#[trigger] urls@[i]).len() <= u32::MAX,
        ensures
            r.wf(),
            r.endpoints_spec() == urls@,
            r.size() == DEFAULT_SIZE,
    {
        Ring::new_with_size(urls, DEFAULT_SIZE)
    }

    /// A ring over `urls` with `size` buckets, which the nodes share equally:
    /// node `i` gets the hashes of its endpoint under the seeds
    /// `0..size / urls.len()`.
    pub fn new_with_size(urls: Vec<String>, size: usize) -> (r: Ring)
        requires
            urls@.len() > 0,
            forall|i: int| 0 <= i < urls@.len() ==> endpoint_key(#[trigger] urls@[i]).len() <= u32::MAX,
        ensures
            r.wf(),
            r.endpoints_spec() == urls@,
            r.size() == size,
    {
        let share = size / urls.len();
        let ghost keys = endpoint_keys(urls@);
        let mut buckets: Vec<(u32, usize)> = Vec::new();
        let mut i: usize = 0;
        while i < urls.len()
            invariant
                0 <= i <= urls@.len(),
                share as nat == size as nat / urls@.len(),
                keys == endpoint_keys(urls@),
                forall|n: int| 0 <= n < urls@.len() ==> endpoint_key(#[trigger] urls@[n]).len() <= u32::MAX,
                buckets@ == bucket_list(keys.take(i as int), share as nat),
            decreases urls@.len() - i,
        {
            let key = urls[i].as_str().as_bytes();
            let ghost before = buckets@;
            let mut j: usize = 0;
            while j < share
                invariant
                    0 <= j <= share,
                    0 <= i < urls@.len(),
                    keys == endpoint_keys(urls@),
                    key@ == keys[i as int],
                    key@.len() <= u32::MAX,
                    buckets@ == before + node_buckets(keys[i as int], i as int, share as nat).take(j as int),
                decreases share - j,
            {
                let h = murmur3_32(key, j as u32);
                buckets.push((h, i));
                j = j + 1;
                proof {
                    assert(node_buckets(keys[i as int], i as int, share as nat).take(j as int) =~= node_buckets(
                        keys[i as int],
                        i as int,
                        share as nat,
                    ).take(j - 1).push((h, i)));
                }
            }
            proof {
                assert(keys.take(i + 1).drop_last() =~= keys.take(i as int));
                assert(node_buckets(keys[i as int], i as int, share as nat).take(share as int) =~= node_buckets(
                    keys[i as int],
                    i as int,
                    share as nat,
                ));
            }
            i = i + 1;
        }
        let sorted = sort_buckets(buckets);
        proof {
            assert(keys.take(urls@.len() as int) =~= keys);
            let list = bucket_list(keys, share as nat);
            lemma_bucket_order_total();
            list.lemma_sort_by_ensures(bucket_order());
            vstd::seq_lib::lemma_sorted_unique(sorted@, list.sort_by(bucket_order()), bucket_order());
        }
        Ring { endpoints: urls, buckets: sorted, size: Ghost(size as nat) }
    }

    /// The endpoints of the nodes.
    pub fn endpoints(&self) -> (r: &Vec<String>)
        ensures
            r@ == self.endpoints_spec(),
    {
        &self.endpoints
    }

    /// The endpoint of node `i`.
    pub fn endpoint(&self, i: usize) -> (r: &String)
        requires
            i < self.endpoints_spec().len(),
        ensures
            *r == self.endpoints_spec()[i as int],
    {
        &self.endpoints[i]
    }

    /// The buckets, sorted by hash.
    pub fn buckets(&self) -> (r: &Vec<(u32, usize)>)
        ensures
            r@ == self.buckets_spec(),
    {
        &self.buckets
    }

    /// The number of buckets; a ring with none can place no key.
    pub fn bucket_count(&self) -> (r: usize)
        ensures
            r == self.buckets_spec().len(),
    {
        self.buckets.len()
    }

    /// Every bucket names a node of the ring, in order.
    pub proof fn lemma_wf(&self)
        requires
            self.wf(),
        ensures
            sorted_by(self.buckets_spec(), bucket_order()),
            forall|i: int|
                0 <= i < self.buckets_spec().len() ==> #[trigger] self.buckets_spec()[i].1
                    < self.endpoints_spec().len(),
    {
        broadcast use vstd::seq_lib::group_to_multiset_ensures;

        let keys = self.keys();
        let list = bucket_list(keys, self.size() / keys.len());
        lemma_bucket_order_total();
        list.lemma_sort_by_ensures(bucket_order());
        lemma_bucket_list_nodes(keys, self.size() / keys.len());
        assert forall|i: int| 0 <= i < self.buckets_spec().len() implies #[trigger] self.buckets_spec()[i].1
            < self.endpoints_spec().len() by {
            let b = self.buckets_spec()[i];
            assert(self.buckets_spec().contains(b));
            assert(self.buckets_spec().to_multiset().count(b) > 0);
            assert(list.to_multiset().count(b) > 0);
            assert(list.contains(b));
            let k = choose|k: int| 0 <= k < list.len() && list[k] == b;
            assert(list[k].1 < keys.len());
        }
    }

    /// The index of the node that owns `key`.
    pub fn find_bucket(&self, key: &[u8]) -> (r: usize)
        requires
            self.wf(),
            self.buckets_spec().len() > 0,
            key@.len() <= u32::MAX,
        ensures
            r == self.owner_of(key@),
            r < self.endpoints_spec().len(),
    {
        proof {
            self.lemma_wf();
        }
        let pos = murmur3_32(key, 0);
        let n = self.buckets.len();
        let mut lo: usize = 0;
        let mut hi: usize = n;
        while lo < hi
            invariant
                0 <= lo <= hi <= n,
                n == self.buckets@.len(),
                sorted_by(self.buckets@, bucket_order()),
                forall|i: int| 0 <= i < lo ==> #[trigger] self.buckets@[i].0 < pos,
                forall|i: int| hi <= i < n ==> #[trigger] self.buckets@[i].0 >= pos,
            decreases hi - lo,
        {
            let mid = lo + (hi - lo) / 2;
            if self.buckets[mid].0 < pos {
                proof {
                    assert forall|i: int| 0 <= i <= mid implies #[trigger] self.buckets@[i].0 < pos by {
                        if i < mid {
                            assert((bucket_order())(self.buckets@[i], self.buckets@[mid as int]));
                        }
                    }
                }
                lo = mid + 1;
            } else {
                proof {
                    assert forall|i: int| mid <= i < n implies #[trigger] self.buckets@[i].0 >= pos by {
                        if i > mid {
                            assert((bucket_order())(self.buckets@[mid as int], self.buckets@[i]));
                        }
                    }
                }
                hi = mid;
            }
        }
        proof {
            lemma_lower_bound(self.buckets@, pos, lo as int);
        }
        if lo < n {
            self.buckets[lo].1
        } else {
            self.buckets[0].1
        }
    }

    /// The index of the node that owns `key`.
    pub fn get_conn(&self, key: &[u8]) -> (r: usize)
        requires
            self.wf(),
            self.buckets_spec().len() > 0,
            key@.len() <= u32::MAX,
        ensures
            r == self.owner_of(key@),
            r < self.endpoints_spec().len(),
    {
        self.find_bucket(key)
    }
}

impl Ring {
    /// Whether node `n` owns a key.
    pub open spec fn owned_by(&self, n: usize) -> spec_fn(Seq<u8>) -> bool {
        |k: Seq<u8>| self.owner_of(k) == n
    }

    /// The keys of `keys` that node `n` owns, in their order in `keys`.
    pub open spec fn pipeline(&self, keys: Seq<Seq<u8>>, n: usize) -> Seq<Seq<u8>> {
        keys.filter(self.owned_by(n))
    }

    /// The nodes below `n` that own some of `keys`, in index order, each with
    /// its pipeline.
    pub open spec fn batches_upto(&self, keys: Seq<Seq<u8>>, n: nat) -> Seq<(usize, Seq<Seq<u8>>)>
        decreases n,
    {
        if n == 0 {
            seq![]
        } else {
            let rest = self.batches_upto(keys, (n - 1) as nat);
            let p = self.pipeline(keys, (n - 1) as usize);
            if p.len() > 0 {
                rest.push(((n - 1) as usize, p))
            } else {
                rest
            }
        }
    }

    /// Every node that owns some of `keys`, in index order, with its pipeline.
    pub open spec fn batches(&self, keys: Seq<Seq<u8>>) -> Seq<(usize, Seq<Seq<u8>>)> {
        self.batches_upto(keys, self.endpoints_spec().len())
    }

    /// The node that owns each key.
    fn owners(&self, keys: &Vec<Vec<u8>>) -> (r: Vec<usize>)
        requires
            self.wf(),
            self.buckets_spec().len() > 0,
            forall|i: int| 0 <= i < keys@.len() ==> (#[trigger] keys@[i])@.len() <= u32::MAX,
        ensures
            r@.len() == keys@.len(),
            forall|i: int| 0 <= i < keys@.len() ==> #[trigger] r@[i] == self.owner_of(keys@[i]@),
    {
        let mut r: Vec<usize> = Vec::with_capacity(keys.len());
        let mut i: usize = 0;
        while i < keys.len()
            invariant
                self.wf(),
                self.buckets_spec().len() > 0,
                forall|k: int| 0 <= k < keys@.len() ==> (#[trigger] keys@[k])@.len() <= u32::MAX,
                0 <= i <= keys@.len(),
                r@.len() == i,
                forall|k: int| 0 <= k < i ==> #[trigger] r@[k] == self.owner_of(keys@[k]@),
            decreases keys@.len() - i,
        {
            let n = self.find_bucket(keys[i].as_slice());
            r.push(n);
            i = i + 1;
        }
        r
    }

    /// Group `keys` by the node that owns them: each node that owns some of
    /// them, in index order, with those keys in their order in `keys`.
    pub fn get_conns(&self, keys: &Vec<Vec<u8>>) -> (r: Vec<(usize, Vec<Vec<u8>>)>)
        requires
            self.wf(),
            self.buckets_spec().len() > 0,
            forall|i: int| 0 <= i < keys@.len() ==> (#[trigger] keys@[i])@.len() <= u32::MAX,
        ensures
            r@.len() == self.batches(views(keys@)).len(),
            forall|i: int|
                0 <= i < r@.len() ==> (#[trigger] r@[i]).0 == self.batches(views(keys@))[i].0 && views(
                    r@[i].1@,
                ) == self.batches(views(keys@))[i].1,
    {
        let owners = self.owners(keys);
        let ghost ks = views(keys@);
        let mut out: Vec<(usize, Vec<Vec<u8>>)> = Vec::new();
        let mut n: usize = 0;
        while n < self.endpoints.len()
            invariant
                0 <= n <= self.endpoints@.len(),
                ks == views(keys@),
                owners@.len() == keys@.len(),
                forall|i: int| 0 <= i < keys@.len() ==> #[trigger] owners@[i] == self.owner_of(keys@[i]@),
                out@.len() == self.batches_upto(ks, n as nat).len(),
                forall|i: int|
                    0 <= i < out@.len() ==> (#[trigger] out@[i]).0 == self.batches_upto(ks, n as nat)[i].0
                        && views(out@[i].1@) == self.batches_upto(ks, n as nat)[i].1,
            decreases self.endpoints@.len() - n,
        {
            let mut p: Vec<Vec<u8>> = Vec::new();
            let mut j: usize = 0;
            while j < keys.len()
                invariant
                    0 <= j <= keys@.len(),
                    ks == views(keys@),
                    owners@.len() == keys@.len(),
                    forall|i: int| 0 <= i < keys@.len() ==> #[trigger] owners@[i] == self.owner_of(keys@[i]@),
                    views(p@) == ks.take(j as int).filter(self.owned_by(n)),
                decreases keys@.len() - j,
            {
                let ghost before = p@;
                if owners[j] == n {
                    p.push(vstd::slice::slice_to_vec(keys[j].as_slice()));
                    proof {
                        assert(views(p@) =~= views(before).push(keys@[j as int]@));
                    }
                }
                proof {
                    assert(ks.take(j + 1) =~= ks.take(j as int).push(ks[j as int]));
                    ks.take(j as int).lemma_filter_push(ks[j as int], self.owned_by(n));
                }
                j = j + 1;
            }
            proof {
                assert(ks.take(keys@.len() as int) =~= ks);
            }
            let ghost prev = out@;
            if p.len() > 0 {
                out.push((n, p));
            }
            n = n + 1;
            proof {
                let b = self.batches_upto(ks, n as nat);
                assert(self.batches_upto(ks, (n - 1) as nat) == self.batches_upto(ks, (n as nat - 1) as nat));
                assert forall|i: int| 0 <= i < out@.len() implies (#[trigger] out@[i]).0 == b[i].0 && views(
                    out@[i].1@,
                ) == b[i].1 by {
                    if i < prev.len() {
                        assert(out@[i] == prev[i]);
                    }
                }
            }
        }
        out
    }
}

/// All keys of pipelines `0..n`, node after node.
spec fn flat_upto(ring: Ring, keys: Seq<Seq<u8>>, n: nat) -> Seq<Seq<u8>>
    decreases n,
{
    if n == 0 {
        seq![]
    } else {
        flat_upto(ring, keys, (n - 1) as nat) + ring.pipeline(keys, (n - 1) as usize)
    }
}

proof fn lemma_flat_batches(ring: Ring, keys: Seq<Seq<u8>>, n: nat)
    ensures
        ring.batches_upto(keys, n).map_values(|b: (usize, Seq<Seq<u8>>)| b.1).flatten() == flat_upto(
            ring,
            keys,
            n,
        ),
    decreases n,
{
    broadcast use vstd::seq_lib::group_seq_properties;

    if n == 0 {
        assert(ring.batches_upto(keys, n).map_values(|b: (usize, Seq<Seq<u8>>)| b.1) =~= seq![]);
    } else {
        lemma_flat_batches(ring, keys, (n - 1) as nat);
        let rest = ring.batches_upto(keys, (n - 1) as nat);
        let f = |b: (usize, Seq<Seq<u8>>)| b.1;
        let p = ring.pipeline(keys, (n - 1) as usize);
        if p.len() > 0 {
            assert(rest.push(((n - 1) as usize, p)).map_values(f) =~= rest.map_values(f).push(p));
            rest.map_values(f).lemma_flatten_push(p);
        } else {
            assert(p =~= seq![]);
        }
        assert(flat_upto(ring, keys, n) =~= flat_upto(ring, keys, (n - 1) as nat) + p);
    }
}

proof fn lemma_flat_push(ring: Ring, keys: Seq<Seq<u8>>, x: Seq<u8>, n: nat)
    requires
        n <= usize::MAX,
    ensures
        flat_upto(ring, keys.push(x), n).to_multiset() == if ring.owner_of(x) < n {
            flat_upto(ring, keys, n).to_multiset().insert(x)
        } else {
            flat_upto(ring, keys, n).to_multiset()
        },
    decreases n,
{
    broadcast use vstd::multiset::group_multiset_axioms;
    broadcast use vstd::seq_lib::group_to_multiset_ensures;

    if n > 0 {
        let m = (n - 1) as nat;
        lemma_flat_push(ring, keys, x, m);
        let pred = ring.owned_by((n - 1) as usize);
        keys.lemma_filter_push(x, pred);
        vstd::seq_lib::lemma_multiset_commutative(flat_upto(ring, keys.push(x), m), keys.push(x).filter(pred));
        vstd::seq_lib::lemma_multiset_commutative(flat_upto(ring, keys, m), keys.filter(pred));
        let a = flat_upto(ring, keys.push(x), m).to_multiset();
        let b = flat_upto(ring, keys, m).to_multiset();
        let p = keys.filter(pred).to_multiset();
        assert(flat_upto(ring, keys.push(x), n) == flat_upto(ring, keys.push(x), m) + keys.push(x).filter(pred));
        assert(flat_upto(ring, keys, n) == flat_upto(ring, keys, m) + keys.filter(pred));
        if pred(x) {
            vstd::seq_lib::to_multiset_build(keys.filter(pred), x);
            assert(ring.owner_of(x) == m);
            assert(a == b);
            assert(b.add(p.insert(x)) =~= b.add(p).insert(x));
        } else if ring.owner_of(x) < m {
            assert(a == b.insert(x));
            assert(b.insert(x).add(p) =~= b.add(p).insert(x));
        } else {
            assert(a == b);
        }
    } else {
        assert(flat_upto(ring, keys.push(x), n) =~= seq![]);
    }
}

proof fn lemma_flat_all(ring: Ring, keys: Seq<Seq<u8>>)
    requires
        ring.wf(),
        ring.buckets_spec().len() > 0,
    ensures
        flat_upto(ring, keys, ring.endpoints_spec().len()).to_multiset() == keys.to_multiset(),
    decreases keys.len(),
{
    broadcast use vstd::multiset::group_multiset_axioms;
    broadcast use vstd::seq_lib::group_to_multiset_ensures;

    let k = ring.endpoints_spec().len();
    if keys.len() == 0 {
        lemma_flat_empty(ring, keys, k);
    } else {
        let rest = keys.drop_last();
        let x = keys.last();
        lemma_flat_all(ring, rest);
        assert(rest.push(x) =~= keys);
        lemma_flat_push(ring, rest, x, k);
        ring.lemma_wf();
        let b = ring.buckets_spec();
        let i = lower_bound(b, murmur3_32_of(x, 0));
        if i < b.len() {
            assert(b[i as int].1 < k);
        } else {
            assert(b[0].1 < k);
        }
    }
}

proof fn lemma_flat_empty(ring: Ring, keys: Seq<Seq<u8>>, n: nat)
    requires
        keys.len() == 0,
    ensures
        flat_upto(ring, keys, n) == Seq::<Seq<u8>>::empty(),
    decreases n,
{
    if n > 0 {
        lemma_flat_empty(ring, keys, (n - 1) as nat);
        assert(keys.filter(ring.owned_by((n - 1) as usize)) =~= seq![]);
        assert(flat_upto(ring, keys, n) =~= Seq::<Seq<u8>>::empty());
    }
}

proof fn lemma_batches_shape(ring: Ring, keys: Seq<Seq<u8>>, n: nat)
    requires
        n <= usize::MAX,
    ensures
        forall|i: int|
            0 <= i < ring.batches_upto(keys, n).len() ==> {
                let b = #[trigger] ring.batches_upto(keys, n)[i];
                &&& b.0 < n
                &&& b.1 == keys.filter(ring.owned_by(b.0))
                &&& b.1.len() > 0
            },
        forall|i: int, j: int|
            0 <= i < j < ring.batches_upto(keys, n).len() ==> (#[trigger] ring.batches_upto(keys, n)[i]).0
                < (#[trigger] ring.batches_upto(keys, n)[j]).0,
    decreases n,
{
    if n > 0 {
        lemma_batches_shape(ring, keys, (n - 1) as nat);
        let rest = ring.batches_upto(keys, (n - 1) as nat);
        let p = ring.pipeline(keys, (n - 1) as usize);
        if p.len() > 0 {
            assert(ring.batches_upto(keys, n) == rest.push(((n - 1) as usize, p)));
        } else {
            assert(ring.batches_upto(keys, n) == rest);
        }
    }
}

/// Grouping keys by node loses and adds none: the batches, flattened, hold
/// the same keys as many times as `keys` does. Each batch is the keys that
/// its node owns, in their order in `keys`, and the batches come in node order.
pub proof fn lemma_batches_partition(ring: Ring, keys: Seq<Seq<u8>>)
    requires
        ring.wf(),
        ring.buckets_spec().len() > 0,
    ensures
        ring.batches(keys).map_values(|b: (usize, Seq<Seq<u8>>)| b.1).flatten().to_multiset()
            == keys.to_multiset(),
        forall|i: int|
            0 <= i < ring.batches(keys).len() ==> {
                let b = #[trigger] ring.batches(keys)[i];
                &&& b.0 < ring.endpoints_spec().len()
                &&& b.1 == keys.filter(ring.owned_by(b.0))
                &&& b.1.len() > 0
            },
        forall|i: int, j: int|
            0 <= i < j < ring.batches(keys).len() ==> (#[trigger] ring.batches(keys)[i]).0
                < (#[trigger] ring.batches(keys)[j]).0,
{
    let k = ring.endpoints_spec().len();
    lemma_flat_batches(ring, keys, k);
    lemma_flat_all(ring, keys);
    lemma_batches_shape(ring, keys, k);
}

/// The buckets of each node beyond its first `b`, up to its first `a`.
spec fn tail_list(keys: Seq<Seq<u8>>, a: nat, b: nat) -> Seq<(u32, usize)>
    decreases keys.len(),
{
    if keys.len() == 0 {
        seq![]
    } else {
        tail_list(keys.drop_last(), a, b) + node_buckets(keys.last(), keys.len() - 1, a).subrange(
            b as int,
            a as int,
        )
    }
}

proof fn lemma_split_buckets(keys: Seq<Seq<u8>>, a: nat, b: nat)
    requires
        b <= a,
    ensures
        bucket_list(keys, a).to_multiset() == bucket_list(keys, b).to_multiset().add(
            tail_list(keys, a, b).to_multiset(),
        ),
        tail_list(keys, a, b).len() == keys.len() * (a - b),
    decreases keys.len(),
{
    broadcast use vstd::multiset::group_multiset_axioms;

    if keys.len() == 0 {
        assert(bucket_list(keys, a) =~= seq![]);
        assert(bucket_list(keys, b) =~= seq![]);
        let m = Seq::<(u32, usize)>::empty().to_multiset();
        assert(m.len() == 0) by {
            broadcast use vstd::seq_lib::group_to_multiset_ensures;

        }
        vstd::multiset::lemma_multiset_empty_len(m);
        assert(m.add(m) =~= m);
    } else {
        let rest = keys.drop_last();
        let n = keys.len() - 1;
        lemma_split_buckets(rest, a, b);
        let na = node_buckets(keys.last(), n, a);
        let nb = node_buckets(keys.last(), n, b);
        let nt = na.subrange(b as int, a as int);
        assert(na =~= nb + nt);
        vstd::seq_lib::lemma_multiset_commutative(bucket_list(rest, a), na);
        vstd::seq_lib::lemma_multiset_commutative(bucket_list(rest, b), nb);
        vstd::seq_lib::lemma_multiset_commutative(tail_list(rest, a, b), nt);
        vstd::seq_lib::lemma_multiset_commutative(nb, nt);
        assert(bucket_list(keys, a).to_multiset() =~= bucket_list(keys, b).to_multiset().add(
            tail_list(keys, a, b).to_multiset(),
        ));
        assert(rest.len() * (a - b) + (a - b) == keys.len() * (a - b)) by (nonlinear_arith)
            requires
                rest.len() + 1 == keys.len(),
        ;
    }
}

proof fn lemma_sub_le<V>(c: Multiset<V>, x: Multiset<V>, y: Multiset<V>)
    ensures
        c.add(x).sub(c.add(y)).len() <= x.len(),
{
    broadcast use vstd::multiset::group_multiset_axioms;

    let d = c.add(x).sub(c.add(y));
    assert(x =~= d.add(x.sub(d)));
}

/// Adding an endpoint after the others changes few buckets. Of the old
/// ring's buckets, at most `K * (size / K - size / (K + 1))` are not in the
/// new ring, `K` being the old number of nodes: each old node keeps the first
/// `size / (K + 1)` of its buckets. Of the new ring's buckets, at most
/// `size / (K + 1)` were not in the old one: those of the new node.
pub proof fn lemma_add_endpoint_changes(keys: Seq<Seq<u8>>, extra: Seq<u8>, size: nat)
    requires
        keys.len() > 0,
    ensures
        ring_buckets(keys, size).to_multiset().sub(ring_buckets(keys.push(extra), size).to_multiset()).len()
            <= keys.len() * (size / keys.len() - size / (keys.len() + 1)),
        ring_buckets(keys.push(extra), size).to_multiset().sub(ring_buckets(keys, size).to_multiset()).len()
            <= size / (keys.len() + 1),
{
    let k = keys.len();
    let a = size / k;
    let b = size / (k + 1);
    vstd::arithmetic::div_mod::lemma_div_is_ordered_by_denominator(size as int, k as int, (k + 1) as int);
    let more = keys.push(extra);
    assert(more.drop_last() =~= keys);
    lemma_bucket_order_total();
    bucket_list(keys, a).lemma_sort_by_ensures(bucket_order());
    bucket_list(more, b).lemma_sort_by_ensures(bucket_order());
    lemma_split_buckets(keys, a, b);
    let c = bucket_list(keys, b).to_multiset();
    let t = tail_list(keys, a, b).to_multiset();
    let nb = node_buckets(extra, k as int, b);
    vstd::seq_lib::lemma_multiset_commutative(bucket_list(keys, b), nb);
    assert(bucket_list(more, b) == bucket_list(keys, b) + nb);
    lemma_sub_le(c, t, nb.to_multiset());
    lemma_sub_le(c, nb.to_multiset(), t);
    assert(t.len() == tail_list(keys, a, b).len()) by {
        broadcast use vstd::seq_lib::group_to_multiset_ensures;

    }
    assert(nb.to_multiset().len() == b) by {
        broadcast use vstd::seq_lib::group_to_multiset_ensures;

    }
    assert(c.add(t) =~= c.add(t));
}

/// The bounds of `lemma_add_endpoint_changes` added up: together at most
/// `size / (K + 1) + size / K` buckets change, on the rings where the old
/// nodes lose together no more buckets than one node holds. On the others,
/// such as seven buckets over three nodes, the sum can exceed it.
pub proof fn lemma_add_endpoint_bound(keys: Seq<Seq<u8>>, extra: Seq<u8>, size: nat)
    requires
        keys.len() > 0,
        keys.len() * (size / keys.len() - size / (keys.len() + 1)) <= size / keys.len(),
    ensures
        ring_buckets(keys, size).to_multiset().sub(ring_buckets(keys.push(extra), size).to_multiset()).len()
            + ring_buckets(keys.push(extra), size).to_multiset().sub(
            ring_buckets(keys, size).to_multiset(),
        ).len() <= size / (keys.len() + 1) + size / keys.len(),
{
    lemma_add_endpoint_changes(keys, extra, size);
}

/// Two rings made from the same endpoints with the same number of buckets
/// have the same buckets, so each key goes to the same node on both.
pub proof fn lemma_ring_deterministic(a: Ring, b: Ring, key: Seq<u8>)
    requires
        a.wf(),
        b.wf(),
        a.endpoints_spec() == b.endpoints_spec(),
        a.size() == b.size(),
    ensures
        a.buckets_spec() == b.buckets_spec(),
        a.owner_of(key) == b.owner_of(key),
{
}

} // verus!
