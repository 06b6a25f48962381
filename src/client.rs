use vstd::prelude::*;

use crate::error::{Error, ProtocolError};
use crate::keymap::KeyMap;
use crate::packet::{
    request_fits, request_model, Packet, PacketModel, SetExtras, GETKQ_OPCODE,
    GETK_OPCODE, DELETE_OPCODE, SETQ_OPCODE, SET_OPCODE,
};
use crate::ring::{views, Ring};
use crate::status::Status;

verus! {

/// The values that a multi-key get found, by key.
pub type BulkOkResponse = KeyMap<Vec<u8>>;

/// The errors that single keys of a multi-key operation met, by key.
pub type BulkErrResponse = KeyMap<Error>;

/// What a reply to a single-key get means: the value on a hit, nothing on a
/// miss, else the status as an error.
pub fn get_result(reply: Packet) -> (r: Result<Option<Vec<u8>>, Error>)
    ensures
        reply.header.vbucket_or_status == 0 ==> (r matches Ok(Some(v)) && v@ == reply.value@),
        reply.header.vbucket_or_status == 1 ==> r matches Ok(None),
        reply.header.vbucket_or_status > 1 ==> (r matches Err(Error::Status(s)) && s
            == Status::from_code(reply.header.vbucket_or_status)),
{
    match reply.error_for_status() {
        Ok(()) => Ok(Some(reply.value)),
        Err(Status::KeyNotFound) => Ok(None),
        Err(status) => Err(Error::Status(status)),
    }
}

/// What a reply to a store, a delete or a noop means: success on status zero,
/// else the status as an error.
pub fn store_result(reply: &Packet) -> (r: Result<(), Error>)
    ensures
        reply.header.vbucket_or_status == 0 ==> r is Ok,
        reply.header.vbucket_or_status != 0 ==> (r matches Err(Error::Status(s)) && s
            == Status::from_code(reply.header.vbucket_or_status)),
{
    match reply.error_for_status() {
        Ok(()) => Ok(()),
        Err(status) => Err(Error::Status(status)),
    }
}

/// Where the reading of one node's replies to a batch stands.
pub enum Drain {
    /// A multi-key get: replies come until the one for this key, the last
    /// of the batch, which was asked for with a non-quiet `getk`.
    Gets { sentinel: Vec<u8> },
    /// A multi-key set: replies come until one with status zero, the answer
    /// to the final non-quiet `set`.
    Stores,
    /// A multi-key delete: this many replies are still to come.
    Deletes { remaining: usize },
    /// Every reply has been read.
    Done,
}

/// The status error that a reply records for its key.
pub open spec fn status_error(reply: PacketModel) -> Error {
    Error::Status(Status::from_code(reply.header.vbucket_or_status))
}

impl Drain {
    pub open spec fn is_done_spec(&self) -> bool {
        self is Done
    }

    /// Whether every reply has been read.
    pub fn is_done(&self) -> (r: bool)
        ensures
            r == self.is_done_spec(),
    {
        match self {
            Drain::Done => true,
            _ => false,
        }
    }

    /// This reply ends the drain.
    pub open spec fn ends_at(&self, reply: PacketModel) -> bool {
        match self {
            Drain::Gets { sentinel } => reply.key == sentinel@,
            Drain::Stores => reply.header.vbucket_or_status == 0,
            Drain::Deletes { remaining } => remaining <= 1,
            Drain::Done => true,
        }
    }

    /// This reply puts its value among the successes.
    pub open spec fn keeps_value(&self, reply: PacketModel) -> bool {
        self is Gets && reply.header.vbucket_or_status == 0
    }

    /// This reply puts its status among the errors: any failure but a miss,
    /// and for a delete a miss too.
    pub open spec fn keeps_error(&self, reply: PacketModel) -> bool {
        match self {
            Drain::Deletes { .. } => reply.header.vbucket_or_status != 0,
            _ => reply.header.vbucket_or_status > 1,
        }
    }

    /// Takes in one reply: records its outcome under its key and moves on,
    /// to `Done` when the reply ends the drain.
    pub fn absorb(&mut self, reply: Packet, values: &mut BulkOkResponse, errors: &mut BulkErrResponse)
        requires
            !old(self).is_done_spec(),
            old(values).wf(),
            old(errors).wf(),
        ensures
            final(values).wf(),
            final(errors).wf(),
            final(values)@ == if old(self).keeps_value(reply@) {
                old(values)@.insert(reply.key@, reply.value)
            } else {
                old(values)@
            },
            final(errors)@ == if old(self).keeps_error(reply@) {
                old(errors)@.insert(reply.key@, status_error(reply@))
            } else {
                old(errors)@
            },
            old(self).ends_at(reply@) ==> final(self).is_done_spec(),
            !old(self).ends_at(reply@) ==> match *old(self) {
                Drain::Deletes { remaining } => *final(self) == Drain::Deletes { remaining: (remaining
                    - 1) as usize },
                _ => *final(self) == *old(self),
            },
    {
        let code = reply.header.vbucket_or_status;
        let ends = match self {
            Drain::Gets { sentinel } => crate::keymap::bytes_eq(reply.key.as_slice(), sentinel.as_slice()),
            Drain::Stores => code == 0,
            Drain::Deletes { remaining } => *remaining <= 1,
            Drain::Done => true,
        };
        let is_delete = match self {
            Drain::Deletes { .. } => true,
            _ => false,
        };
        let is_get = match self {
            Drain::Gets { .. } => true,
            _ => false,
        };
        if ends {
            *self = Drain::Done;
        } else {
            match self {
                Drain::Deletes { remaining } => {
                    *remaining = *remaining - 1;
                },
                _ => {},
            }
        }
        if code != 0 && (is_delete || code != 1) {
            errors.insert(reply.key, Error::Status(Status::from_u16(code)));
        } else if code == 0 && is_get {
            values.insert(reply.key, reply.value);
        }
    }
}

/// The key's length fits a request's key field.
pub open spec fn key_fits(k: Seq<u8>) -> bool {
    k.len() <= u16::MAX
}

/// The requests of a multi-key get on one node: a quiet `getkq` for each
/// key but the last, and a `getk` for the last.
pub open spec fn get_requests(batch: Seq<Seq<u8>>) -> Seq<PacketModel> {
    Seq::new(
        batch.len(),
        |i: int|
            request_model(
                if i + 1 < batch.len() {
                    GETKQ_OPCODE
                } else {
                    GETK_OPCODE
                },
                seq![],
                batch[i],
                seq![],
            ),
    )
}

/// The requests of a multi-key delete on one node: a `delete` for each key.
pub open spec fn delete_requests(batch: Seq<Seq<u8>>) -> Seq<PacketModel> {
    Seq::new(batch.len(), |i: int| request_model(DELETE_OPCODE, seq![], batch[i], seq![]))
}

/// The requests of a multi-key set on one node: a quiet `setq` for each pair
/// but the last, and a `set` for the last, all with the same extras.
pub open spec fn set_requests(batch: Seq<(Seq<u8>, Seq<u8>)>, extras: SetExtras) -> Seq<PacketModel> {
    Seq::new(
        batch.len(),
        |i: int|
            request_model(
                if i + 1 < batch.len() {
                    SETQ_OPCODE
                } else {
                    SET_OPCODE
                },
                extras.wire(),
                batch[i].0,
                batch[i].1,
            ),
    )
}

/// The wire models of a list of packets.
pub open spec fn models(ps: Seq<Packet>) -> Seq<PacketModel> {
    ps.map_values(|p: Packet| p@)
}

/// The requests of a multi-key get for one node's keys.
pub fn get_batch_requests(batch: &Vec<Vec<u8>>) -> (r: Result<Vec<Packet>, ProtocolError>)
    ensures
        r is Ok <==> forall|i: int| 0 <= i < batch@.len() ==> key_fits(#[trigger] batch@[i]@),
        r matches Ok(ps) ==> models(ps@) == get_requests(views(batch@)),
        r matches Err(e) ==> e == ProtocolError::PacketTooLarge,
{
    let mut out: Vec<Packet> = Vec::with_capacity(batch.len());
    let mut i: usize = 0;
    while i < batch.len()
        invariant
            0 <= i <= batch@.len(),
            forall|k: int| 0 <= k < i ==> key_fits(#[trigger] batch@[k]@),
            models(out@) == get_requests(views(batch@)).take(i as int),
        decreases batch@.len() - i,
    {
        let key = batch[i].as_slice();
        let r = if i + 1 < batch.len() {
            Packet::getkq(key)
        } else {
            Packet::getk(key)
        };
        let ghost before = out@;
        match r {
            Ok(p) => {
                assert(p@ == get_requests(views(batch@))[i as int]);
                out.push(p);
            },
            Err(e) => {
                return Err(e);
            },
        }
        i = i + 1;
        proof {
            assert(models(out@) =~= models(before).push(out@[i - 1]@));
            assert(models(out@) =~= get_requests(views(batch@)).take(i as int));
        }
    }
    proof {
        assert(get_requests(views(batch@)).take(i as int) =~= get_requests(views(batch@)));
    }
    Ok(out)
}

/// The requests of a multi-key delete for one node's keys.
pub fn delete_batch_requests(batch: &Vec<Vec<u8>>) -> (r: Result<Vec<Packet>, ProtocolError>)
    ensures
        r is Ok <==> forall|i: int| 0 <= i < batch@.len() ==> key_fits(#[trigger] batch@[i]@),
        r matches Ok(ps) ==> models(ps@) == delete_requests(views(batch@)),
        r matches Err(e) ==> e == ProtocolError::PacketTooLarge,
{
    let mut out: Vec<Packet> = Vec::with_capacity(batch.len());
    let mut i: usize = 0;
    while i < batch.len()
        invariant
            0 <= i <= batch@.len(),
            forall|k: int| 0 <= k < i ==> key_fits(#[trigger] batch@[k]@),
            models(out@) == delete_requests(views(batch@)).take(i as int),
        decreases batch@.len() - i,
    {
        let ghost before = out@;
        match Packet::delete(batch[i].as_slice()) {
            Ok(p) => {
                assert(p@ == delete_requests(views(batch@))[i as int]);
                out.push(p);
            },
            Err(e) => {
                return Err(e);
            },
        }
        i = i + 1;
        proof {
            assert(models(out@) =~= models(before).push(out@[i - 1]@));
            assert(models(out@) =~= delete_requests(views(batch@)).take(i as int));
        }
    }
    proof {
        assert(delete_requests(views(batch@)).take(i as int) =~= delete_requests(views(batch@)));
    }
    Ok(out)
}

/// The byte strings of a list of key-value pairs.
pub open spec fn pair_views(ps: Seq<(Vec<u8>, Vec<u8>)>) -> Seq<(Seq<u8>, Seq<u8>)> {
    ps.map_values(|p: (Vec<u8>, Vec<u8>)| (p.0@, p.1@))
}

/// The requests of a multi-key set for one node's pairs, each to expire after
/// `expire` seconds, with zero flags.
pub fn set_batch_requests(batch: &Vec<(Vec<u8>, Vec<u8>)>, expire: u32) -> (r: Result<
    Vec<Packet>,
    ProtocolError,
>)
    ensures
        r is Ok <==> forall|i: int|
            0 <= i < batch@.len() ==> request_fits(
                8,
                (#[trigger] batch@[i]).0@.len() as int,
                batch@[i].1@.len() as int,
            ),
        r matches Ok(ps) ==> models(ps@) == set_requests(
            pair_views(batch@),
            SetExtras { flags: 0, expire },
        ),
        r matches Err(e) ==> e == ProtocolError::PacketTooLarge,
{
    let extras = SetExtras::new(0, expire);
    let mut out: Vec<Packet> = Vec::with_capacity(batch.len());
    let mut i: usize = 0;
    while i < batch.len()
        invariant
            0 <= i <= batch@.len(),
            extras == (SetExtras { flags: 0, expire }),
            forall|k: int|
                0 <= k < i ==> request_fits(
                    8,
                    (#[trigger] batch@[k]).0@.len() as int,
                    batch@[k].1@.len() as int,
                ),
            models(out@) == set_requests(pair_views(batch@), extras).take(i as int),
        decreases batch@.len() - i,
    {
        let key = batch[i].0.as_slice();
        let value = batch[i].1.as_slice();
        let r = if i + 1 < batch.len() {
            Packet::setq(key, value, extras)
        } else {
            Packet::set(key, value, extras)
        };
        let ghost before = out@;
        match r {
            Ok(p) => {
                assert(p@ == set_requests(pair_views(batch@), extras)[i as int]);
                out.push(p);
            },
            Err(e) => {
                return Err(e);
            },
        }
        i = i + 1;
        proof {
            assert(models(out@) =~= models(before).push(out@[i - 1]@));
            assert(models(out@) =~= set_requests(pair_views(batch@), extras).take(i as int));
        }
    }
    proof {
        assert(set_requests(pair_views(batch@), extras).take(i as int) =~= set_requests(
            pair_views(batch@),
            extras,
        ));
    }
    Ok(out)
}

/// One node's part of a multi-key operation: the requests to write to it,
/// in order, and the drain that reads its replies.
pub struct NodePlan {
    pub node: usize,
    pub requests: Vec<Packet>,
    pub drain: Drain,
}

/// Every key fits a request's key field.
pub open spec fn keys_fit(keys: Seq<Seq<u8>>) -> bool {
    forall|i: int| 0 <= i < keys.len() ==> key_fits(#[trigger] keys[i])
}

/// Checks that every key fits a request's key field.
fn check_keys(keys: &Vec<Vec<u8>>) -> (r: bool)
    ensures
        r == keys_fit(views(keys@)),
{
    let mut i: usize = 0;
    while i < keys.len()
        invariant
            0 <= i <= keys@.len(),
            forall|k: int| 0 <= k < i ==> key_fits(#[trigger] views(keys@)[k]),
        decreases keys@.len() - i,
    {
        assert(views(keys@)[i as int] == keys@[i as int]@);
        if keys[i].len() > 0xffff {
            return false;
        }
        i = i + 1;
    }
    true
}

/// The keys of a batch all come from `keys`, so they fit when those do.
proof fn lemma_batch_keys_fit(ring: Ring, keys: Seq<Seq<u8>>, b: Seq<Seq<u8>>, n: usize)
    requires
        keys_fit(keys),
        b == keys.filter(ring.owned_by(n)),
    ensures
        keys_fit(b),
{
    assert forall|i: int| 0 <= i < b.len() implies key_fits(#[trigger] b[i]) by {
        assert(b.contains(b[i]));
        keys.lemma_filter_contains_rev(ring.owned_by(n), b[i]);
        let j = choose|j: int| 0 <= j < keys.len() && keys[j] == b[i];
    }
}

/// The operation's plan for the ring's batches: the `i`-th plan goes to the
/// node of the `i`-th batch, with the requests and the drain that `shape`
/// says for it.
pub open spec fn plans_follow(
    plans: Seq<NodePlan>,
    batches: Seq<(usize, Seq<Seq<u8>>)>,
    shape: spec_fn(Seq<Seq<u8>>, Seq<PacketModel>, Drain) -> bool,
) -> bool {
    &&& plans.len() == batches.len()
    &&& forall|i: int|
        0 <= i < plans.len() ==> (#[trigger] plans[i]).node == batches[i].0 && shape(
            batches[i].1,
            models(plans[i].requests@),
            plans[i].drain,
        )
}

/// A multi-key get on one node: its requests, and a drain that waits for
/// the reply to the last key.
pub open spec fn get_shape() -> spec_fn(Seq<Seq<u8>>, Seq<PacketModel>, Drain) -> bool {
    |b: Seq<Seq<u8>>, reqs: Seq<PacketModel>, d: Drain|
        reqs == get_requests(b) && (d matches Drain::Gets { sentinel } && sentinel@ == b.last())
}

/// A multi-key delete on one node: its requests, and a drain that waits for
/// one reply to each.
pub open spec fn delete_shape() -> spec_fn(Seq<Seq<u8>>, Seq<PacketModel>, Drain) -> bool {
    |b: Seq<Seq<u8>>, reqs: Seq<PacketModel>, d: Drain|
        reqs == delete_requests(b) && (d matches Drain::Deletes { remaining } && remaining == b.len())
}

/// A multi-key set on one node: its requests for the values that `data`
/// holds under the batch's keys, and a drain that waits for a success.
pub open spec fn set_shape(data: Map<Seq<u8>, Vec<u8>>, expire: u32) -> spec_fn(
    Seq<Seq<u8>>,
    Seq<PacketModel>,
    Drain,
) -> bool {
    |b: Seq<Seq<u8>>, reqs: Seq<PacketModel>, d: Drain|
        reqs == set_requests(
            b.map_values(|k: Seq<u8>| (k, data[k]@)),
            SetExtras { flags: 0, expire },
        ) && d is Stores
}

/// Plans a multi-key get: for each node that owns some of `keys`, in node
/// order, a quiet `getkq` for each of its keys but the last and a `getk` for
/// the last, in the order of `keys`. Fails when a key is too long.
pub fn plan_get_multi(ring: &Ring, keys: &Vec<Vec<u8>>) -> (r: Result<Vec<NodePlan>, ProtocolError>)
    requires
        ring.wf(),
        ring.buckets_spec().len() > 0,
    ensures
        r is Ok <==> keys_fit(views(keys@)),
        r matches Err(e) ==> e == ProtocolError::PacketTooLarge,
        r matches Ok(plans) ==> plans_follow(plans@, ring.batches(views(keys@)), get_shape()),
{
    if !check_keys(keys) {
        return Err(ProtocolError::PacketTooLarge);
    }
    proof {
        assert forall|i: int| 0 <= i < keys@.len() implies (#[trigger] keys@[i])@.len() <= u32::MAX by {
            assert(views(keys@)[i] == keys@[i]@);
        }
    }
    let batches = ring.get_conns(keys);
    let ghost spec_batches = ring.batches(views(keys@));
    proof {
        crate::ring::lemma_batches_partition(*ring, views(keys@));
    }
    let mut plans: Vec<NodePlan> = Vec::with_capacity(batches.len());
    let mut i: usize = 0;
    while i < batches.len()
        invariant
            0 <= i <= batches@.len(),
            keys_fit(views(keys@)),
            spec_batches == ring.batches(views(keys@)),
            batches@.len() == spec_batches.len(),
            forall|k: int|
                0 <= k < batches@.len() ==> (#[trigger] batches@[k]).0 == spec_batches[k].0 && views(
                    batches@[k].1@,
                ) == spec_batches[k].1,
            forall|k: int|
                0 <= k < spec_batches.len() ==> {
                    let b = #[trigger] spec_batches[k];
                    &&& b.1 == views(keys@).filter(ring.owned_by(b.0))
                    &&& b.1.len() > 0
                },
            plans@.len() == i,
            forall|k: int|
                0 <= k < i ==> (#[trigger] plans@[k]).node == spec_batches[k].0 && (get_shape())(
                    spec_batches[k].1,
                    models(plans@[k].requests@),
                    plans@[k].drain,
                ),
        decreases batches@.len() - i,
    {
        let batch = &batches[i].1;
        proof {
            lemma_batch_keys_fit(*ring, views(keys@), views(batch@), spec_batches[i as int].0);
            assert forall|k: int| 0 <= k < batch@.len() implies key_fits(#[trigger] batch@[k]@) by {
                assert(views(batch@)[k] == batch@[k]@);
            }
        }
        let requests = match get_batch_requests(batch) {
            Ok(reqs) => reqs,
            Err(e) => {
                return Err(e);
            },
        };
        let last = vstd::slice::slice_to_vec(batch[batch.len() - 1].as_slice());
        plans.push(NodePlan { node: batches[i].0, requests, drain: Drain::Gets { sentinel: last } });
        i = i + 1;
    }
    Ok(plans)
}

/// Plans a multi-key delete: for each node that owns some of `keys`, in node
/// order, a `delete` for each of its keys, in the order of `keys`. Fails when
/// a key is too long.
pub fn plan_delete_multi(ring: &Ring, keys: &Vec<Vec<u8>>) -> (r: Result<Vec<NodePlan>, ProtocolError>)
    requires
        ring.wf(),
        ring.buckets_spec().len() > 0,
    ensures
        r is Ok <==> keys_fit(views(keys@)),
        r matches Err(e) ==> e == ProtocolError::PacketTooLarge,
        r matches Ok(plans) ==> plans_follow(plans@, ring.batches(views(keys@)), delete_shape()),
{
    if !check_keys(keys) {
        return Err(ProtocolError::PacketTooLarge);
    }
    proof {
        assert forall|i: int| 0 <= i < keys@.len() implies (#[trigger] keys@[i])@.len() <= u32::MAX by {
            assert(views(keys@)[i] == keys@[i]@);
        }
    }
    let batches = ring.get_conns(keys);
    let ghost spec_batches = ring.batches(views(keys@));
    proof {
        crate::ring::lemma_batches_partition(*ring, views(keys@));
    }
    let mut plans: Vec<NodePlan> = Vec::with_capacity(batches.len());
    let mut i: usize = 0;
    while i < batches.len()
        invariant
            0 <= i <= batches@.len(),
            keys_fit(views(keys@)),
            spec_batches == ring.batches(views(keys@)),
            batches@.len() == spec_batches.len(),
            forall|k: int|
                0 <= k < batches@.len() ==> (#[trigger] batches@[k]).0 == spec_batches[k].0 && views(
                    batches@[k].1@,
                ) == spec_batches[k].1,
            forall|k: int|
                0 <= k < spec_batches.len() ==> {
                    let b = #[trigger] spec_batches[k];
                    &&& b.1 == views(keys@).filter(ring.owned_by(b.0))
                    &&& b.1.len() > 0
                },
            plans@.len() == i,
            forall|k: int|
                0 <= k < i ==> (#[trigger] plans@[k]).node == spec_batches[k].0 && (delete_shape())(
                    spec_batches[k].1,
                    models(plans@[k].requests@),
                    plans@[k].drain,
                ),
        decreases batches@.len() - i,
    {
        let batch = &batches[i].1;
        proof {
            lemma_batch_keys_fit(*ring, views(keys@), views(batch@), spec_batches[i as int].0);
            assert forall|k: int| 0 <= k < batch@.len() implies key_fits(#[trigger] batch@[k]@) by {
                assert(views(batch@)[k] == batch@[k]@);
            }
        }
        let requests = match delete_batch_requests(batch) {
            Ok(reqs) => reqs,
            Err(e) => {
                return Err(e);
            },
        };
        plans.push(
            NodePlan { node: batches[i].0, requests, drain: Drain::Deletes { remaining: batch.len() } },
        );
        i = i + 1;
    }
    Ok(plans)
}

/// Every entry of `data` fits a store request.
pub open spec fn entries_fit(data: Map<Seq<u8>, Vec<u8>>) -> bool {
    forall|k: Seq<u8>| #[trigger] data.contains_key(k) ==> request_fits(8, k.len() as int, data[k]@.len() as int)
}

/// The pairs of a batch of keys with the values that `data` holds for them.
fn batch_pairs(data: &KeyMap<Vec<u8>>, batch: &Vec<Vec<u8>>) -> (r: Vec<(Vec<u8>, Vec<u8>)>)
    requires
        data.wf(),
        forall|i: int| 0 <= i < batch@.len() ==> data@.contains_key(#[trigger] batch@[i]@),
    ensures
        pair_views(r@) == views(batch@).map_values(|k: Seq<u8>| (k, data@[k]@)),
{
    let ghost target = views(batch@).map_values(|k: Seq<u8>| (k, data@[k]@));
    let mut out: Vec<(Vec<u8>, Vec<u8>)> = Vec::with_capacity(batch.len());
    let mut i: usize = 0;
    while i < batch.len()
        invariant
            data.wf(),
            forall|k: int| 0 <= k < batch@.len() ==> data@.contains_key(#[trigger] batch@[k]@),
            target == views(batch@).map_values(|k: Seq<u8>| (k, data@[k]@)),
            0 <= i <= batch@.len(),
            pair_views(out@) == target.take(i as int),
        decreases batch@.len() - i,
    {
        let key = batch[i].as_slice();
        let ghost before = out@;
        match data.get(key) {
            Some(v) => {
                let pair = (vstd::slice::slice_to_vec(key), vstd::slice::slice_to_vec(v.as_slice()));
                assert((pair.0@, pair.1@) == target[i as int]);
                out.push(pair);
            },
            None => {
                assert(false);
            },
        }
        i = i + 1;
        proof {
            assert(pair_views(out@) =~= pair_views(before).push(target[i - 1]));
            assert(pair_views(out@) =~= target.take(i as int));
        }
    }
    proof {
        assert(target.take(i as int) =~= target);
    }
    out
}

/// Plans a multi-key set of the entries of `data`, each to expire after
/// `expire` seconds: for each node that owns some of the keys, in node
/// order, a quiet `setq` for each of its entries but the last and a `set`
/// for the last, in the map's key order. Fails when an entry is too long.
pub fn plan_set_multi(ring: &Ring, data: &KeyMap<Vec<u8>>, expire: u32) -> (r: Result<
    Vec<NodePlan>,
    ProtocolError,
>)
    requires
        ring.wf(),
        ring.buckets_spec().len() > 0,
        data.wf(),
    ensures
        r is Ok <==> entries_fit(data@),
        r matches Err(e) ==> e == ProtocolError::PacketTooLarge,
        r matches Ok(plans) ==> plans_follow(plans@, ring.batches(data.key_order()), set_shape(data@, expire)),
{
    let keys = data.keys();
    proof {
        data.lemma_key_order();
    }
    let mut i: usize = 0;
    while i < keys.len()
        invariant
            data.wf(),
            views(keys@) == data.key_order(),
            data.key_order().len() == data@.dom().len(),
            forall|j: int| 0 <= j < data.key_order().len() ==> data@.contains_key(#[trigger] data.key_order()[j]),
            0 <= i <= keys@.len(),
            forall|j: int| 0 <= j < i ==> request_fits(8, (#[trigger] keys@[j])@.len() as int, data@[keys@[j]@]@.len() as int),
        decreases keys@.len() - i,
    {
        let key = keys[i].as_slice();
        assert(views(keys@)[i as int] == keys@[i as int]@);
        match data.get(key) {
            Some(v) => {
                if key.len() > 0xffff || v.len() > 0xffff_ffff - 8 - key.len() {
                    return Err(ProtocolError::PacketTooLarge);
                }
            },
            None => {
                assert(false);
            },
        }
        i = i + 1;
    }
    proof {
        assert forall|k: Seq<u8>| #[trigger] data@.contains_key(k) implies request_fits(8, k.len() as int, data@[k]@.len() as int) by {
            assert(data.key_order().contains(k));
            let j = choose|j: int| 0 <= j < data.key_order().len() && data.key_order()[j] == k;
            assert(views(keys@)[j] == keys@[j]@);
        }
        assert forall|j: int| 0 <= j < keys@.len() implies (#[trigger] keys@[j])@.len() <= u32::MAX by {
            assert(request_fits(8, keys@[j]@.len() as int, data@[keys@[j]@]@.len() as int));
        }
    }
    let batches = ring.get_conns(&keys);
    let ghost spec_batches = ring.batches(data.key_order());
    proof {
        crate::ring::lemma_batches_partition(*ring, data.key_order());
    }
    let mut plans: Vec<NodePlan> = Vec::with_capacity(batches.len());
    let mut n: usize = 0;
    while n < batches.len()
        invariant
            0 <= n <= batches@.len(),
            data.wf(),
            entries_fit(data@),
            forall|j: int| 0 <= j < data.key_order().len() ==> data@.contains_key(#[trigger] data.key_order()[j]),
            spec_batches == ring.batches(data.key_order()),
            batches@.len() == spec_batches.len(),
            forall|k: int|
                0 <= k < batches@.len() ==> (#[trigger] batches@[k]).0 == spec_batches[k].0 && views(
                    batches@[k].1@,
                ) == spec_batches[k].1,
            forall|k: int|
                0 <= k < spec_batches.len() ==> {
                    let b = #[trigger] spec_batches[k];
                    &&& b.1 == data.key_order().filter(ring.owned_by(b.0))
                    &&& b.1.len() > 0
                },
            plans@.len() == n,
            forall|k: int|
                0 <= k < n ==> (#[trigger] plans@[k]).node == spec_batches[k].0 && (set_shape(data@, expire))(
                    spec_batches[k].1,
                    models(plans@[k].requests@),
                    plans@[k].drain,
                ),
        decreases batches@.len() - n,
    {
        let batch = &batches[n].1;
        proof {
            let b = spec_batches[n as int];
            assert forall|k: int| 0 <= k < batch@.len() implies data@.contains_key(#[trigger] batch@[k]@) by {
                assert(views(batch@)[k] == batch@[k]@);
                assert(b.1.contains(b.1[k]));
                data.key_order().lemma_filter_contains_rev(ring.owned_by(b.0), b.1[k]);
            }
        }
        let pairs = batch_pairs(data, batch);
        proof {
            assert forall|k: int| 0 <= k < pairs@.len() implies request_fits(
                8,
                (#[trigger] pairs@[k]).0@.len() as int,
                pairs@[k].1@.len() as int,
            ) by {
                assert(pair_views(pairs@).len() == pairs@.len());
                assert(views(batch@).len() == batch@.len());
                assert(pair_views(pairs@)[k] == (pairs@[k].0@, pairs@[k].1@));
                assert(views(batch@)[k] == batch@[k]@);
                assert(data@.contains_key(batch@[k]@));
            }
        }
        let requests = match set_batch_requests(&pairs, expire) {
            Ok(reqs) => reqs,
            Err(e) => {
                return Err(e);
            },
        };
        plans.push(NodePlan { node: batches[n].0, requests, drain: Drain::Stores });
        n = n + 1;
    }
    Ok(plans)
}

} // verus!
