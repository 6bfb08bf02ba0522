use vstd::prelude::*;

use crate::state::{
    has_key, has_sub_pair, insert_entry, key_index, lemma_insert_entry, lemma_key_index,
    remove_key, spec_add_subscription, unique_keys, Message, ReceiveHandle, ReceivedMessage,
    SNSSubscription,
};

verus! {

/// FIFO delivery. A queue delivers `take` of its pending sequence and keeps
/// `skip` of it, so receiving `n1` messages and then `n2` more hands out
/// exactly the first messages of the queue, in the order they were enqueued,
/// with no message skipped or repeated.
pub proof fn lemma_receive_fifo(pending: Seq<Message>, n1: int, n2: int)
    requires
        0 <= n1,
        0 <= n2,
    ensures
        ({
            let c1 = vstd::math::min(n1, pending.len() as int);
            let rest = pending.skip(c1);
            let c2 = vstd::math::min(n2, rest.len() as int);
            pending.take(c1) + rest.take(c2) == pending.take(c1 + c2)
        }),
{
    let c1 = vstd::math::min(n1, pending.len() as int);
    let rest = pending.skip(c1);
    let c2 = vstd::math::min(n2, rest.len() as int);
    assert(pending.take(c1) + rest.take(c2) =~= pending.take(c1 + c2));
}

/// Deleting a delivery is idempotent, and a visibility change after the
/// delete is a no-op: the first delete removes the receipt handle from the
/// in-flight table, after which the handle is unknown, and both
/// `delete_received_message` and `change_received_visibility` leave a
/// registry unchanged under an unknown handle.
pub proof fn lemma_delete_idempotent(
    recs: Seq<(ReceiveHandle, ReceivedMessage)>,
    handle: Seq<char>,
)
    requires
        unique_keys(recs),
    ensures
        !has_key(remove_key(recs, handle), handle),
        remove_key(remove_key(recs, handle), handle) == remove_key(recs, handle),
{
    if has_key(recs, handle) {
        lemma_key_index(recs, handle);
        let i = key_index(recs, handle);
        let rem = recs.remove(i);
        recs.remove_ensures(i);
        assert forall|j: int| 0 <= j < rem.len() implies (#[trigger] rem[j]).0@ != handle by {
            if j < i {
                assert(rem[j] == recs[j]);
            } else {
                assert(rem[j] == recs[j + 1]);
            }
        }
        lemma_key_index(rem, handle);
        assert(key_index(rem, handle) == -1);
    }
}

/// A receipt handle is never reused while its delivery is in flight.
/// Recording a delivery under a handle that is not in flight keeps every
/// existing record intact, and a second recording under a handle that is
/// fresh for the extended table cannot collide with the first: the two
/// handles differ and each stays bound to its own record.
pub proof fn lemma_handle_not_reused(
    recs: Seq<(ReceiveHandle, ReceivedMessage)>,
    h1: ReceiveHandle,
    r1: ReceivedMessage,
    h2: ReceiveHandle,
    r2: ReceivedMessage,
)
    requires
        !has_key(recs, h1@),
        !has_key(insert_entry(recs, h1, r1), h2@),
    ensures
        h1@ != h2@,
        ({
            let twice = insert_entry(insert_entry(recs, h1, r1), h2, r2);
            &&& has_key(twice, h1@)
            &&& has_key(twice, h2@)
            &&& crate::state::val_of(twice, h1@) == r1
            &&& crate::state::val_of(twice, h2@) == r2
            &&& forall|k: Seq<char>|
                k != h1@ && k != h2@ && #[trigger] has_key(recs, k) ==> has_key(twice, k)
                    && crate::state::val_of(twice, k) == crate::state::val_of(recs, k)
        }),
{
    lemma_insert_entry(recs, h1, r1);
    lemma_insert_entry(insert_entry(recs, h1, r1), h2, r2);
}

/// Subscribing the same topic/endpoint pair twice yields exactly one
/// subscription: the second add is a no-op, and when the pair was not bound
/// before, the only subscription carrying it afterwards is the one the first
/// add appended.
pub proof fn lemma_subscribe_idempotent(
    subs: Seq<SNSSubscription>,
    s1: SNSSubscription,
    s2: SNSSubscription,
)
    requires
        s1.topic_arn@ == s2.topic_arn@,
        s1.endpoint@ == s2.endpoint@,
    ensures
        spec_add_subscription(spec_add_subscription(subs, s1), s2) == spec_add_subscription(
            subs,
            s1,
        ),
        !has_sub_pair(subs, s1.topic_arn@, s1.endpoint@) ==> {
            let once = spec_add_subscription(subs, s1);
            &&& has_sub_pair(once, s1.topic_arn@, s1.endpoint@)
            &&& forall|i: int|
                0 <= i < once.len() && (#[trigger] once[i]).topic_arn@ == s1.topic_arn@
                    && once[i].endpoint@ == s1.endpoint@ ==> i == subs.len()
        },
{
    let t = s1.topic_arn@;
    let e = s1.endpoint@;
    crate::state::lemma_sub_pair_index(subs, t, e);
    if !has_sub_pair(subs, t, e) {
        let once = subs.push(s1);
        crate::state::lemma_sub_pair_index(once, t, e);
        assert(once[subs.len() as int] == s1);
        assert forall|i: int|
            0 <= i < once.len() && (#[trigger] once[i]).topic_arn@ == t && once[i].endpoint@
                == e implies i == subs.len() by {
            if i < subs.len() {
                assert(once[i] == subs[i]);
            }
        }
        assert(has_sub_pair(once, t, e)) by {
            if crate::state::sub_pair_index(once, t, e) == -1 {
                assert(!(once[subs.len() as int].topic_arn@ == t && once[
                    subs.len() as int
                ].endpoint@ == e));
            }
        }
        assert(spec_add_subscription(once, s2) == once);
    }
}

/// Key uniqueness is an invariant of every registry: a fresh table has it,
/// and each way a table changes keeps it. Appending under a key that is not
/// present, a unique-key insert, and a removal all preserve it, so the
/// `unique_keys` premise of `lemma_delete_idempotent` holds of every
/// reachable in-flight table.
pub proof fn lemma_push_fresh_preserves_unique<K: View<V = Seq<char>>, T>(
    s: Seq<(K, T)>,
    k: K,
    v: T,
)
    requires
        unique_keys(s),
        !has_key(s, k@),
    ensures
        unique_keys(s.push((k, v))),
{
    lemma_key_index(s, k@);
    assert forall|i: int, j: int|
        0 <= i < j < s.push((k, v)).len() implies (#[trigger] s.push((k, v))[i]).0@ != (
    #[trigger] s.push((k, v))[j]).0@ by {
        if j < s.len() {
            assert(s.push((k, v))[i] == s[i] && s.push((k, v))[j] == s[j]);
        } else {
            assert(s.push((k, v))[i] == s[i] && s.push((k, v))[j] == (k, v));
        }
    }
}

pub proof fn lemma_insert_preserves_unique<K: View<V = Seq<char>>, T>(s: Seq<(K, T)>, k: K, v: T)
    requires
        unique_keys(s),
    ensures
        unique_keys(insert_entry(s, k, v)),
{
    lemma_key_index(s, k@);
    if has_key(s, k@) {
        let i = key_index(s, k@);
        let ins = s.update(i, (k, v));
        assert forall|a: int, b: int|
            0 <= a < b < ins.len() implies (#[trigger] ins[a]).0@ != (#[trigger] ins[b]).0@ by {
            assert(ins[a].0@ == s[a].0@ && ins[b].0@ == s[b].0@);
        }
    } else {
        lemma_push_fresh_preserves_unique(s, k, v);
    }
}

pub proof fn lemma_remove_preserves_unique<K: View<V = Seq<char>>, T>(
    s: Seq<(K, T)>,
    key: Seq<char>,
)
    requires
        unique_keys(s),
    ensures
        unique_keys(remove_key(s, key)),
{
    lemma_key_index(s, key);
    if has_key(s, key) {
        let i = key_index(s, key);
        let rem = s.remove(i);
        s.remove_ensures(i);
        assert forall|a: int, b: int|
            0 <= a < b < rem.len() implies (#[trigger] rem[a]).0@ != (#[trigger] rem[b]).0@ by {
            let a2: int = if a < i {
                a
            } else {
                a + 1
            };
            let b2: int = if b < i {
                b
            } else {
                b + 1
            };
            assert(rem[a] == s[a2] && rem[b] == s[b2]);
        }
    }
}

} // verus!
