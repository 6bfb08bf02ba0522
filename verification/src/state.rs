use std::collections::VecDeque;
use vstd::prelude::*;

use crate::dict::Dict;
use crate::misc::{escape_seq, escape_xml, get_new_id};
use crate::text::{hex_of, last_segment, last_segment_of, to_hex};

verus! {

// ---------------------------------------------------------------------------
// Outside types and calls this module relies on.
// ---------------------------------------------------------------------------
#[verifier::external_type_specification]
#[verifier::external_body]
#[verifier::reject_recursive_types(T)]
pub struct ExOneshotSender<T>(tokio::sync::oneshot::Sender<T>);

#[verifier::external_type_specification]
#[verifier::external_body]
#[verifier::reject_recursive_types(T)]
pub struct ExOneshotReceiver<T>(tokio::sync::oneshot::Receiver<T>);

#[verifier::external_type_specification]
#[verifier::external_body]
pub struct ExRecvError(tokio::sync::oneshot::error::RecvError);

/// Relies on tokio's `oneshot::channel`: makes a connected sender/receiver
/// pair, used as a queue's single-slot wake-up bell.
#[verifier::external_body]
fn oneshot_channel() -> (tokio::sync::oneshot::Sender<bool>, tokio::sync::oneshot::Receiver<bool>) {
    tokio::sync::oneshot::channel()
}

/// Relies on tokio's oneshot `Sender::send`: delivers the wake-up if the
/// receiver still listens; a failure only means the receiver is gone, and the
/// notification is best-effort, so the result is dropped.
#[verifier::external_body]
fn ring_bell(bell: tokio::sync::oneshot::Sender<bool>) {
    let _ = bell.send(true);
}

/// What the MD5 digest of a byte sequence is: 16 bytes fixed by the input
/// alone.
pub uninterp spec fn md5_digest(bytes: Seq<u8>) -> Seq<u8>;

/// Relies on the md-5 crate's `Md5` hasher (`Digest::new`/`update`/
/// `finalize`): the 16-byte MD5 digest of the input, a function of the bytes
/// alone.
#[verifier::external_body]
fn md5_bytes(bytes: &[u8]) -> (r: Vec<u8>)
    ensures
        r@ == md5_digest(bytes@),
        r@.len() == 16,
{
    let mut hasher = <md5::Md5 as md5::Digest>::new();
    md5::Digest::update(&mut hasher, bytes);
    let digest = md5::Digest::finalize(hasher);
    digest.to_vec()
}

/// Relies on chrono's `Utc::now().timestamp()`: the clock's current Unix time
/// in whole seconds. Nothing is assumed about its value.
#[verifier::external_body]
fn unix_timestamp() -> i64 {
    chrono::Utc::now().timestamp()
}

/// The current time as seconds since the epoch, clamped below at zero.
fn now_seconds() -> u64 {
    let t = unix_timestamp();
    if t < 0 {
        0
    } else {
        t as u64
    }
}

// ---------------------------------------------------------------------------
// Derived identifiers.
// ---------------------------------------------------------------------------
/// The path segment a queue is registered under, derived from its URL or ARN.
#[derive(Debug)]
pub struct QueuePath(pub String);

impl View for QueuePath {
    type V = Seq<char>;

    open spec fn view(&self) -> Seq<char> {
        self.0@
    }
}

impl Clone for QueuePath {
    fn clone(&self) -> (res: Self)
        ensures
            res == *self,
    {
        QueuePath(self.0.clone())
    }
}

/// The stable identifier a topic is registered under.
#[derive(Debug)]
pub struct TopicArn(pub String);

impl View for TopicArn {
    type V = Seq<char>;

    open spec fn view(&self) -> Seq<char> {
        self.0@
    }
}

impl Clone for TopicArn {
    fn clone(&self) -> (res: Self)
        ensures
            res == *self,
    {
        TopicArn(self.0.clone())
    }
}

/// A receipt handle: a single-use token naming one delivery of a message.
#[derive(Debug)]
pub struct ReceiveHandle(pub String);

impl View for ReceiveHandle {
    type V = Seq<char>;

    open spec fn view(&self) -> Seq<char> {
        self.0@
    }
}

impl Clone for ReceiveHandle {
    fn clone(&self) -> (res: Self)
        ensures
            res == *self,
    {
        ReceiveHandle(self.0.clone())
    }
}

impl ReceiveHandle {
    pub fn new() -> (r: Self)
        ensures
            r@.len() == 36,
    {
        ReceiveHandle(get_new_id())
    }
}

// ---------------------------------------------------------------------------
// Association lists keyed by derived identifiers.
// ---------------------------------------------------------------------------
/// Index of the first entry whose key views as `key`, or -1 when none does.
pub open spec fn key_index<K: View<V = Seq<char>>, T>(s: Seq<(K, T)>, key: Seq<char>) -> int
    decreases s.len(),
{
    if s.len() == 0 {
        -1
    } else if s[0].0@ == key {
        0
    } else {
        let r = key_index(s.drop_first(), key);
        if r == -1 {
            -1
        } else {
            r + 1
        }
    }
}

pub open spec fn has_key<K: View<V = Seq<char>>, T>(s: Seq<(K, T)>, key: Seq<char>) -> bool {
    key_index(s, key) != -1
}

/// The value of the first entry under `key`.
pub open spec fn val_of<K: View<V = Seq<char>>, T>(s: Seq<(K, T)>, key: Seq<char>) -> T
    recommends
        has_key(s, key),
{
    s[key_index(s, key)].1
}

/// The list with the first entry under `key` removed, or unchanged when no
/// entry has that key.
pub open spec fn remove_key<K: View<V = Seq<char>>, T>(s: Seq<(K, T)>, key: Seq<char>) -> Seq<
    (K, T),
> {
    if has_key(s, key) {
        s.remove(key_index(s, key))
    } else {
        s
    }
}

/// No two entries carry the same key.
pub open spec fn unique_keys<K: View<V = Seq<char>>, T>(s: Seq<(K, T)>) -> bool {
    forall|i: int, j: int| 0 <= i < j < s.len() ==> (#[trigger] s[i]).0@ != (#[trigger] s[j]).0@
}

/// `key_index` points at the first matching entry: it is in range, its entry
/// carries the key, no earlier entry does, and -1 means no entry does at all.
pub proof fn lemma_key_index<K: View<V = Seq<char>>, T>(s: Seq<(K, T)>, key: Seq<char>)
    ensures
        key_index(s, key) == -1 || (0 <= key_index(s, key) < s.len()),
        key_index(s, key) != -1 ==> s[key_index(s, key)].0@ == key,
        key_index(s, key) != -1 ==> forall|j: int| 0 <= j < key_index(s, key) ==> s[j].0@ != key,
        key_index(s, key) == -1 ==> forall|j: int| 0 <= j < s.len() ==> s[j].0@ != key,
    decreases s.len(),
{
    if s.len() > 0 && s[0].0@ != key {
        lemma_key_index(s.drop_first(), key);
        assert(forall|j: int| 1 <= j < s.len() ==> s.drop_first()[j - 1] == s[j]);
    }
}

/// If entry `i` matches `key` and no earlier entry does, `key_index` is `i`.
pub proof fn lemma_key_index_unique<K: View<V = Seq<char>>, T>(
    s: Seq<(K, T)>,
    key: Seq<char>,
    i: int,
)
    requires
        0 <= i < s.len(),
        s[i].0@ == key,
        forall|j: int| 0 <= j < i ==> s[j].0@ != key,
    ensures
        key_index(s, key) == i,
{
    lemma_key_index(s, key);
}

/// Appending an entry leaves every present key where it was; a fresh key is
/// found at the end.
pub proof fn lemma_key_index_push<K: View<V = Seq<char>>, T>(
    s: Seq<(K, T)>,
    p: (K, T),
    key: Seq<char>,
)
    ensures
        has_key(s, key) ==> key_index(s.push(p), key) == key_index(s, key),
        !has_key(s, key) && p.0@ == key ==> key_index(s.push(p), key) == s.len() as int,
        !has_key(s, key) && p.0@ != key ==> key_index(s.push(p), key) == -1,
    decreases s.len(),
{
    if s.len() == 0 {
        assert(s.push(p)[0] == p);
        assert(s.push(p).len() == 1);
        assert(s.push(p).drop_first() =~= Seq::<(K, T)>::empty());
        assert(key_index(Seq::<(K, T)>::empty(), key) == -1);
        assert(key_index(s, key) == -1);
        assert(!has_key(s, key));
        if p.0@ != key {
            assert(key_index(s.push(p), key) == -1);
        } else {
            assert(key_index(s.push(p), key) == 0);
        }
    } else {
        lemma_key_index_push(s.drop_first(), p, key);
        lemma_key_index(s.drop_first(), key);
        lemma_key_index(s.drop_first().push(p), key);
        assert(s.push(p).drop_first() =~= s.drop_first().push(p));
        assert(s.push(p)[0] == s[0]);
        if s[0].0@ == key {
            assert(key_index(s.push(p), key) == 0);
            assert(key_index(s, key) == 0);
        } else {
            let rp = key_index(s.drop_first().push(p), key);
            assert(key_index(s.push(p), key) == if rp == -1 {
                -1
            } else {
                rp + 1
            });
            let rs = key_index(s.drop_first(), key);
            assert(key_index(s, key) == if rs == -1 {
                -1
            } else {
                rs + 1
            });
            if !has_key(s, key) && p.0@ == key {
                assert(rs == -1);
                assert(!has_key(s.drop_first(), key));
                assert(rp == s.drop_first().len() as int);
                assert(s.drop_first().len() == s.len() - 1);
                assert(rp != -1);
                assert(key_index(s.push(p), key) == s.len() as int);
            }
        }
    }
}

/// What a unique-key insert does to lookups: the inserted key now maps to the
/// new value, every other key is untouched, and the length grows only when
/// the key was absent.
pub proof fn lemma_insert_entry<K: View<V = Seq<char>>, T>(s: Seq<(K, T)>, k: K, v: T)
    ensures
        has_key(insert_entry(s, k, v), k@),
        val_of(insert_entry(s, k, v), k@) == v,
        forall|key2: Seq<char>|
            key2 != k@ ==> #[trigger] has_key(insert_entry(s, k, v), key2) == has_key(s, key2),
        forall|key2: Seq<char>|
            key2 != k@ && has_key(s, key2) ==> #[trigger] val_of(insert_entry(s, k, v), key2)
                == val_of(s, key2),
        insert_entry(s, k, v).len() == s.len() + if has_key(s, k@) {
            0int
        } else {
            1int
        },
{
    lemma_key_index(s, k@);
    if has_key(s, k@) {
        let i = key_index(s, k@);
        let ins = s.update(i, (k, v));
        assert forall|key2: Seq<char>| true implies key_index(ins, key2) == key_index(
            s,
            key2,
        ) by {
            lemma_key_index_same_keys(ins, s, key2);
        }
        lemma_key_index(ins, k@);
        assert forall|key2: Seq<char>|
            key2 != k@ && has_key(s, key2) implies #[trigger] val_of(ins, key2) == val_of(
            s,
            key2,
        ) by {
            lemma_key_index(s, key2);
            assert(key_index(s, key2) != i);
        }
    } else {
        let ins = s.push((k, v));
        assert forall|key2: Seq<char>| true implies key_index(ins, key2) == (if has_key(s, key2) {
            key_index(s, key2)
        } else if k@ == key2 {
            s.len() as int
        } else {
            -1
        }) by {
            lemma_key_index_push(s, (k, v), key2);
        }
        assert(val_of(ins, k@) == v);
        assert forall|key2: Seq<char>|
            key2 != k@ && has_key(s, key2) implies #[trigger] val_of(ins, key2) == val_of(
            s,
            key2,
        ) by {
            lemma_key_index(s, key2);
        }
    }
}

// ---------------------------------------------------------------------------
// Message.
// ---------------------------------------------------------------------------
pub struct MessageView {
    pub id: Seq<char>,
    pub content: Seq<char>,
    pub attributes: Seq<(Seq<char>, Seq<char>)>,
    pub receive_count: u8,
    pub receipt_handle: Seq<char>,
}

/// An immutable payload with delivery metadata: a fresh id and empty receipt
/// handle at creation, a receive count bumped on each delivery, and a receipt
/// handle reassigned on each delivery.
#[derive(Debug)]
pub struct Message {
    pub id: String,
    pub content: String,
    pub attributes: Dict,
    pub receive_count: u8,
    pub receipt_handle: ReceiveHandle,
}

impl View for Message {
    type V = MessageView;

    open spec fn view(&self) -> MessageView {
        MessageView {
            id: self.id@,
            content: self.content@,
            attributes: self.attributes@,
            receive_count: self.receive_count,
            receipt_handle: self.receipt_handle@,
        }
    }
}

impl Clone for Dict {
    fn clone(&self) -> (res: Self)
        ensures
            res@ == self@,
    {
        let mut entries: Vec<(String, String)> = Vec::new();
        let mut i: usize = 0;
        while i < self.entries.len()
            invariant
                i <= self.entries@.len(),
                entries@.len() == i,
                forall|j: int| 0 <= j < i ==> entries@[j] == self.entries@[j],
            decreases self.entries@.len() - i,
        {
            let k = self.entries[i].0.clone();
            let v = self.entries[i].1.clone();
            entries.push((k, v));
            i += 1;
        }
        let res = Dict { entries };
        proof {
            assert(res@ =~= self@);
        }
        res
    }
}

impl Clone for Message {
    fn clone(&self) -> (res: Self)
        ensures
            res@ == self@,
    {
        Message {
            id: self.id.clone(),
            content: self.content.clone(),
            attributes: self.attributes.clone(),
            receive_count: self.receive_count,
            receipt_handle: self.receipt_handle.clone(),
        }
    }
}

impl Message {
    /// A fresh message: random id, the given payload and attributes, not yet
    /// delivered.
    pub fn new(content: &str, attributes: Dict) -> (r: Self)
        ensures
            r@.id.len() == 36,
            r@.content == content@,
            r@.attributes == attributes@,
            r@.receive_count == 0,
            r@.receipt_handle.len() == 36,
    {
        Message {
            id: get_new_id(),
            content: String::from_str(content),
            attributes,
            receive_count: 0,
            receipt_handle: ReceiveHandle::new(),
        }
    }

    /// The MD5 digest of the raw body bytes, in lower-case hex.
    pub fn get_content_md5(&self) -> (r: String)
        ensures
            r@ == hex_of(md5_digest(vstd::utf8::encode_utf8(self.content@))),
    {
        let bytes = self.content.as_str().as_bytes_vec();
        let digest = md5_bytes(bytes.as_slice());
        to_hex(&digest)
    }

    /// The MD5 digest of the attribute name/value byte sequences concatenated
    /// in table order, in lower-case hex.
    pub fn get_attribute_md5(&self) -> (r: String)
        ensures
            r@ == hex_of(md5_digest(attr_bytes(self.attributes@))),
    {
        let mut bytes: Vec<u8> = Vec::new();
        let mut i: usize = 0;
        while i < self.attributes.entries.len()
            invariant
                i <= self.attributes.entries@.len(),
                self@.attributes == self.attributes@,
                bytes@ =~= attr_bytes(self.attributes@.take(i as int)),
            decreases self.attributes.entries@.len() - i,
        {
            let kb = self.attributes.entries[i].0.as_str().as_bytes_vec();
            let vb = self.attributes.entries[i].1.as_str().as_bytes_vec();
            let mut j: usize = 0;
            let ghost before = bytes@;
            while j < kb.len()
                invariant
                    j <= kb@.len(),
                    bytes@ =~= before + kb@.take(j as int),
                decreases kb@.len() - j,
            {
                bytes.push(kb[j]);
                j += 1;
            }
            assert(bytes@ =~= before + kb@);
            let ghost mid = bytes@;
            let mut j2: usize = 0;
            while j2 < vb.len()
                invariant
                    j2 <= vb@.len(),
                    bytes@ =~= mid + vb@.take(j2 as int),
                decreases vb@.len() - j2,
            {
                bytes.push(vb[j2]);
                j2 += 1;
            }
            assert(bytes@ =~= mid + vb@);
            proof {
                let t = self.attributes@.take(i + 1);
                assert(t.drop_last() =~= self.attributes@.take(i as int));
                assert(t.last() == self.attributes@[i as int]);
            }
            i += 1;
            assert(bytes@ =~= attr_bytes(self.attributes@.take(i as int)));
        }
        proof {
            assert(self.attributes@.take(self.attributes@.len() as int) =~= self.attributes@);
        }
        let digest = md5_bytes(bytes.as_slice());
        to_hex(&digest)
    }
}

/// XML for the message attributes among `names` that the message carries,
/// in the order the names were requested.
pub open spec fn attribute_xml(
    attrs: Seq<(Seq<char>, Seq<char>)>,
    names: Seq<Seq<char>>,
) -> Seq<char>
    decreases names.len(),
{
    if names.len() == 0 {
        Seq::empty()
    } else {
        attribute_xml(attrs, names.drop_last()) + match crate::dict::dict_get(
            attrs,
            names.last(),
        ) {
            Some(v) => "<Attribute><Name>"@ + escape_seq(names.last()) + "</Name><Value>"@
                + escape_seq(v) + "</Value></Attribute>"@,
            None => Seq::empty(),
        }
    }
}

/// The XML element one delivered message is rendered as.
pub open spec fn message_xml(m: MessageView, names: Seq<Seq<char>>) -> Seq<char> {
    "<Message><MessageId>"@ + m.id + "</MessageId><ReceiptHandle>"@ + m.receipt_handle
        + "</ReceiptHandle><MD5OfBody>"@ + hex_of(md5_digest(vstd::utf8::encode_utf8(m.content)))
        + "</MD5OfBody><Body>"@ + escape_seq(m.content) + "</Body>"@ + attribute_xml(
        m.attributes,
        names,
    ) + "</Message>"@
}

impl Message {
    /// XML for the requested attributes this message carries.
    pub fn get_attribute_xml(&self, attribute_names: &Vec<String>) -> (r: String)
        ensures
            r@ == attribute_xml(self.attributes@, attribute_names.deep_view()),
    {
        let ghost names = attribute_names.deep_view();
        let mut attributes_str = String::new();
        let mut i: usize = 0;
        while i < attribute_names.len()
            invariant
                i <= attribute_names@.len(),
                names == attribute_names.deep_view(),
                attributes_str@ =~= attribute_xml(self.attributes@, names.take(i as int)),
            decreases attribute_names@.len() - i,
        {
            proof {
                let t = names.take(i + 1);
                assert(t.drop_last() =~= names.take(i as int));
                assert(t.last() == names[i as int]);
            }
            match self.attributes.get(attribute_names[i].as_str()) {
                Some(v) => {
                    attributes_str.append("<Attribute><Name>");
                    let ek = escape_xml(attribute_names[i].as_str());
                    attributes_str.append(ek.as_str());
                    attributes_str.append("</Name><Value>");
                    let ev = escape_xml(v.as_str());
                    attributes_str.append(ev.as_str());
                    attributes_str.append("</Value></Attribute>");
                },
                None => {},
            }
            i += 1;
            assert(attributes_str@ =~= attribute_xml(self.attributes@, names.take(i as int)));
        }
        proof {
            assert(names.take(names.len() as int) =~= names);
        }
        attributes_str
    }

    /// The XML element this message is delivered as.
    pub fn get_message_xml(&self, attribute_names: &Vec<String>) -> (r: String)
        ensures
            r@ == message_xml(self@, attribute_names.deep_view()),
    {
        let mut r = String::from_str("<Message><MessageId>");
        r.append(self.id.as_str());
        r.append("</MessageId><ReceiptHandle>");
        r.append(self.receipt_handle.0.as_str());
        r.append("</ReceiptHandle><MD5OfBody>");
        let digest = self.get_content_md5();
        r.append(digest.as_str());
        r.append("</MD5OfBody><Body>");
        let body = escape_xml(self.content.as_str());
        r.append(body.as_str());
        r.append("</Body>");
        let attrs = self.get_attribute_xml(attribute_names);
        r.append(attrs.as_str());
        r.append("</Message>");
        r
    }
}

/// The concatenation of the UTF-8 bytes of each attribute name and value, in
/// table order.
pub open spec fn attr_bytes(m: Seq<(Seq<char>, Seq<char>)>) -> Seq<u8>
    decreases m.len(),
{
    if m.len() == 0 {
        Seq::empty()
    } else {
        attr_bytes(m.drop_last()) + vstd::utf8::encode_utf8(m.last().0) + vstd::utf8::encode_utf8(
            m.last().1,
        )
    }
}

// ---------------------------------------------------------------------------
// Queue.
// ---------------------------------------------------------------------------
/// A FIFO buffer of pending messages plus a single-slot wake-up bell: a
/// parked consumer's sender is stored in `bell`, and the next send fires and
/// clears it, so each parked waiter is woken exactly once.
pub struct SQSQueue {
    pub name: String,
    pub attributes: Dict,
    pub messages: VecDeque<Message>,
    pub bell: Option<tokio::sync::oneshot::Sender<bool>>,
}

impl SQSQueue {
    pub fn new(name: &str, attributes: Dict) -> (r: Self)
        ensures
            r.name@ == name@,
            r.attributes@ == attributes@,
            r.messages@ =~= Seq::<Message>::empty(),
            r.bell is None,
    {
        SQSQueue {
            name: String::from_str(name),
            attributes,
            messages: VecDeque::new(),
            bell: None,
        }
    }

    /// The attribute under `key`, or `default` when the queue does not carry
    /// it.
    pub fn get_attribute(&self, key: &str, default: &str) -> (r: String)
        ensures
            r@ == match crate::dict::dict_get(self.attributes@, key@) {
                Some(v) => v,
                None => default@,
            },
    {
        match self.attributes.get(key) {
            Some(v) => v.clone(),
            None => String::from_str(default),
        }
    }

    /// Bind `key` to `default` only when the queue does not carry it yet.
    pub fn set_attribute_default(&mut self, key: &str, default: &str)
        ensures
            final(self).attributes@ == if crate::dict::dict_has_key(old(self).attributes@, key@) {
                old(self).attributes@
            } else {
                crate::dict::dict_insert(old(self).attributes@, key@, default@)
            },
            final(self).name == old(self).name,
            final(self).messages == old(self).messages,
            final(self).bell == old(self).bell,
    {
        if !self.attributes.contains_key(key) {
            self.attributes.insert(String::from_str(key), String::from_str(default));
        }
    }

    pub fn has_message(&self) -> (r: bool)
        ensures
            r == (self.messages@.len() != 0),
    {
        self.messages.len() != 0
    }

    /// Park a fresh waiter in the bell slot, replacing any previous one, and
    /// hand back the receiver the caller can block on.
    pub fn get_waiter(&mut self) -> (r: tokio::sync::oneshot::Receiver<bool>)
        ensures
            final(self).bell is Some,
            final(self).name == old(self).name,
            final(self).attributes == old(self).attributes,
            final(self).messages == old(self).messages,
    {
        let (tx, rx) = oneshot_channel();
        self.bell = Some(tx);
        rx
    }

    /// Append a message; if a waiter is parked, fire the bell exactly once
    /// and clear the slot.
    pub fn send_message(&mut self, message: Message)
        ensures
            final(self).messages@ == old(self).messages@.push(message),
            final(self).bell is None,
            final(self).name == old(self).name,
            final(self).attributes == old(self).attributes,
    {
        self.messages.push_back(message);
        match self.bell.take() {
            Some(bell) => ring_bell(bell),
            None => {},
        }
    }

    /// Pop up to `count` messages from the front, preserving order; never
    /// blocks, and returns fewer when fewer are pending.
    pub fn receive_messages(&mut self, count: u8) -> (r: Vec<Message>)
        ensures
            r@ == old(self).messages@.take(vstd::math::min(count as int, old(self).messages@.len() as int)),
            final(self).messages@ == old(self).messages@.skip(
                vstd::math::min(count as int, old(self).messages@.len() as int),
            ),
            final(self).name == old(self).name,
            final(self).attributes == old(self).attributes,
            final(self).bell == old(self).bell,
    {
        let mut messages_out: Vec<Message> = Vec::new();
        let mut i: u8 = 0;
        while i < count
            invariant
                i <= count,
                messages_out@.len() == i as int,
                i <= old(self).messages@.len(),
                messages_out@ =~= old(self).messages@.take(i as int),
                self.messages@ =~= old(self).messages@.skip(i as int),
                self.name == old(self).name,
                self.attributes == old(self).attributes,
                self.bell == old(self).bell,
            decreases count - i,
        {
            match self.messages.pop_front() {
                Some(x) => {
                    messages_out.push(x);
                },
                None => {
                    proof {
                        assert(old(self).messages@.len() == i as int);
                        assert(old(self).messages@.take(i as int) =~= old(self).messages@.take(
                            vstd::math::min(count as int, old(self).messages@.len() as int),
                        ));
                        assert(old(self).messages@.skip(i as int) =~= old(self).messages@.skip(
                            vstd::math::min(count as int, old(self).messages@.len() as int),
                        ));
                    }
                    return messages_out;
                },
            }
            i += 1;
        }
        proof {
            assert(old(self).messages@.take(i as int) =~= old(self).messages@.take(
                vstd::math::min(count as int, old(self).messages@.len() as int),
            ));
            assert(old(self).messages@.skip(i as int) =~= old(self).messages@.skip(
                vstd::math::min(count as int, old(self).messages@.len() as int),
            ));
        }
        messages_out
    }
}

// ---------------------------------------------------------------------------
// Subscription and topic.
// ---------------------------------------------------------------------------
/// A durable binding from a topic to a queue endpoint.
pub struct SNSSubscription {
    pub id: String,
    pub arn: String,
    pub owner: String,
    pub protocol: String,
    pub endpoint: String,
    pub topic_arn: String,
}

impl SNSSubscription {
    /// A fresh queue-protocol subscription: random id, its ARN derived from
    /// the topic's ARN and that id.
    pub fn new_sqs(topic_arn: &TopicArn, endpoint: &str, account_id: &str) -> (r: Self)
        ensures
            r.id@.len() == 36,
            r.arn@ == topic_arn@ + ":"@ + r.id@,
            r.owner@ == account_id@,
            r.protocol@ == "sqs"@,
            r.endpoint@ == endpoint@,
            r.topic_arn@ == topic_arn@,
    {
        let id = get_new_id();
        let mut arn = topic_arn.0.clone();
        arn.append(":");
        arn.append(id.as_str());
        SNSSubscription {
            id,
            arn,
            owner: String::from_str(account_id),
            protocol: String::from_str("sqs"),
            endpoint: String::from_str(endpoint),
            topic_arn: topic_arn.0.clone(),
        }
    }
}

/// Index of the first subscription bound to `topic_arn` and `endpoint`, or -1.
pub open spec fn sub_pair_index(
    subs: Seq<SNSSubscription>,
    topic_arn: Seq<char>,
    endpoint: Seq<char>,
) -> int
    decreases subs.len(),
{
    if subs.len() == 0 {
        -1
    } else if subs[0].topic_arn@ == topic_arn && subs[0].endpoint@ == endpoint {
        0
    } else {
        let r = sub_pair_index(subs.drop_first(), topic_arn, endpoint);
        if r == -1 {
            -1
        } else {
            r + 1
        }
    }
}

pub open spec fn has_sub_pair(
    subs: Seq<SNSSubscription>,
    topic_arn: Seq<char>,
    endpoint: Seq<char>,
) -> bool {
    sub_pair_index(subs, topic_arn, endpoint) != -1
}

pub proof fn lemma_sub_pair_index(
    subs: Seq<SNSSubscription>,
    topic_arn: Seq<char>,
    endpoint: Seq<char>,
)
    ensures
        sub_pair_index(subs, topic_arn, endpoint) == -1 || (0 <= sub_pair_index(
            subs,
            topic_arn,
            endpoint,
        ) < subs.len()),
        sub_pair_index(subs, topic_arn, endpoint) != -1 ==> {
            let i = sub_pair_index(subs, topic_arn, endpoint);
            subs[i].topic_arn@ == topic_arn && subs[i].endpoint@ == endpoint
        },
        sub_pair_index(subs, topic_arn, endpoint) == -1 ==> forall|j: int|
            0 <= j < subs.len() ==> !(subs[j].topic_arn@ == topic_arn && subs[j].endpoint@
                == endpoint),
    decreases subs.len(),
{
    if subs.len() > 0 && !(subs[0].topic_arn@ == topic_arn && subs[0].endpoint@ == endpoint) {
        lemma_sub_pair_index(subs.drop_first(), topic_arn, endpoint);
        assert(forall|j: int| 1 <= j < subs.len() ==> subs.drop_first()[j - 1] == subs[j]);
    }
}

/// Subscriptions kept after removing every one whose ARN is `arn`.
pub open spec fn without_arn(subs: Seq<SNSSubscription>, arn: Seq<char>) -> Seq<SNSSubscription>
    decreases subs.len(),
{
    if subs.len() == 0 {
        subs
    } else {
        without_arn(subs.drop_last(), arn) + if subs.last().arn@ == arn {
            Seq::empty()
        } else {
            seq![subs.last()]
        }
    }
}

/// What a subscribe does to a topic's subscription list: nothing when the
/// topic/endpoint pair is already bound, an append otherwise.
pub open spec fn spec_add_subscription(
    subs: Seq<SNSSubscription>,
    s: SNSSubscription,
) -> Seq<SNSSubscription> {
    if has_sub_pair(subs, s.topic_arn@, s.endpoint@) {
        subs
    } else {
        subs.push(s)
    }
}

/// A named fan-out point holding its subscriptions in insertion order.
pub struct SNSTopic {
    pub name: String,
    pub arn: String,
    pub attributes: Dict,
    pub subscriptions: Vec<SNSSubscription>,
}

impl SNSTopic {
    pub fn new(name: &str, arn: &TopicArn, attributes: Dict) -> (r: Self)
        ensures
            r.name@ == name@,
            r.arn@ == arn@,
            r.attributes@ == attributes@,
            r.subscriptions@ =~= Seq::<SNSSubscription>::empty(),
    {
        SNSTopic {
            name: String::from_str(name),
            arn: arn.0.clone(),
            attributes,
            subscriptions: Vec::new(),
        }
    }

    /// Add a subscription unless one with the same topic and endpoint already
    /// exists; a duplicate subscribe is a no-op.
    pub fn add_subscription(&mut self, subscription: SNSSubscription)
        ensures
            final(self).subscriptions@ == if has_sub_pair(
                old(self).subscriptions@,
                subscription.topic_arn@,
                subscription.endpoint@,
            ) {
                old(self).subscriptions@
            } else {
                old(self).subscriptions@.push(subscription)
            },
            final(self).name == old(self).name,
            final(self).arn == old(self).arn,
            final(self).attributes == old(self).attributes,
    {
        let mut i: usize = 0;
        while i < self.subscriptions.len()
            invariant
                i <= self.subscriptions@.len(),
                *self == *old(self),
                forall|j: int|
                    0 <= j < i ==> !(self.subscriptions@[j].topic_arn@ == subscription.topic_arn@
                        && self.subscriptions@[j].endpoint@ == subscription.endpoint@),
            decreases self.subscriptions@.len() - i,
        {
            let sub = &self.subscriptions[i];
            if sub.topic_arn == subscription.topic_arn && sub.endpoint == subscription.endpoint {
                proof {
                    lemma_sub_pair_index(
                        self.subscriptions@,
                        subscription.topic_arn@,
                        subscription.endpoint@,
                    );
                }
                return ;
            }
            i += 1;
        }
        proof {
            lemma_sub_pair_index(
                self.subscriptions@,
                subscription.topic_arn@,
                subscription.endpoint@,
            );
        }
        self.subscriptions.push(subscription);
    }

    /// Remove every subscription whose ARN is `subscription_arn`.
    pub fn remove_subscription(&mut self, subscription_arn: &str)
        ensures
            final(self).subscriptions@ == without_arn(old(self).subscriptions@, subscription_arn@),
            final(self).name == old(self).name,
            final(self).arn == old(self).arn,
            final(self).attributes == old(self).attributes,
    {
        let arn = String::from_str(subscription_arn);
        let mut kept: Vec<SNSSubscription> = Vec::new();
        let mut i: usize = 0;
        let ghost orig = self.subscriptions@;
        while i < self.subscriptions.len()
            invariant
                i <= self.subscriptions@.len(),
                *self == *old(self),
                orig == old(self).subscriptions@,
                arn@ == subscription_arn@,
                kept@ =~= without_arn(orig.take(i as int), subscription_arn@),
            decreases self.subscriptions@.len() - i,
        {
            proof {
                let t = orig.take(i + 1);
                assert(t.drop_last() =~= orig.take(i as int));
                assert(t.last() == orig[i as int]);
            }
            let sub = &self.subscriptions[i];
            if !(sub.arn == arn) {
                kept.push(sub.clone_ref());
            }
            i += 1;
            assert(kept@ =~= without_arn(orig.take(i as int), subscription_arn@));
        }
        proof {
            assert(orig.take(orig.len() as int) =~= orig);
        }
        self.subscriptions = kept;
    }

    /// The endpoint of every subscription, in insertion order.
    pub fn get_queue_urls(&self) -> (r: Vec<String>)
        ensures
            r@.len() == self.subscriptions@.len(),
            forall|j: int|
                0 <= j < r@.len() ==> r@[j]@ == self.subscriptions@[j].endpoint@,
    {
        let mut urls: Vec<String> = Vec::new();
        let mut i: usize = 0;
        while i < self.subscriptions.len()
            invariant
                i <= self.subscriptions@.len(),
                urls@.len() == i as int,
                forall|j: int| 0 <= j < i ==> urls@[j]@ == self.subscriptions@[j].endpoint@,
            decreases self.subscriptions@.len() - i,
        {
            urls.push(self.subscriptions[i].endpoint.clone());
            i += 1;
        }
        urls
    }
}

impl SNSSubscription {
    /// A field-for-field copy.
    pub fn clone_ref(&self) -> (r: Self)
        ensures
            r == *self,
    {
        SNSSubscription {
            id: self.id.clone(),
            arn: self.arn.clone(),
            owner: self.owner.clone(),
            protocol: self.protocol.clone(),
            endpoint: self.endpoint.clone(),
            topic_arn: self.topic_arn.clone(),
        }
    }
}

// ---------------------------------------------------------------------------
// Registry.
// ---------------------------------------------------------------------------
/// The derived URL of a queue: `{endpoint}/{account}/{name}`.
pub open spec fn queue_url_of(
    endpoint_url: Seq<char>,
    account_id: Seq<char>,
    name: Seq<char>,
) -> Seq<char> {
    endpoint_url + "/"@ + account_id + "/"@ + name
}

/// The registry key of a queue URL or ARN: the last ARN segment for an ARN,
/// the last path segment otherwise.
pub open spec fn queue_path_of(url: Seq<char>) -> Seq<char> {
    if url.len() >= 3 && url.take(3) == "arn"@ {
        last_segment(url, ':')
    } else {
        last_segment(url, '/')
    }
}

/// The derived ARN of a topic: `arn:aws:sns:{region}:{account}:{name}`.
pub open spec fn topic_arn_of(
    region: Seq<char>,
    account_id: Seq<char>,
    name: Seq<char>,
) -> Seq<char> {
    "arn:aws:sns:"@ + region + ":"@ + account_id + ":"@ + name
}

/// Replace the first entry under the key of `k`, or append a new entry; what
/// a unique-key map's insert does to an association list.
pub open spec fn insert_entry<K: View<V = Seq<char>>, T>(s: Seq<(K, T)>, k: K, v: T) -> Seq<
    (K, T),
> {
    if has_key(s, k@) {
        s.update(key_index(s, k@), (k, v))
    } else {
        s.push((k, v))
    }
}

/// In-flight records kept after removing every one owned by queue `key`.
pub open spec fn drop_queue_records(
    recs: Seq<(ReceiveHandle, ReceivedMessage)>,
    key: Seq<char>,
) -> Seq<(ReceiveHandle, ReceivedMessage)>
    decreases recs.len(),
{
    if recs.len() == 0 {
        recs
    } else {
        drop_queue_records(recs.drop_last(), key) + if recs.last().1.queue_path@ == key {
            Seq::empty()
        } else {
            seq![recs.last()]
        }
    }
}

/// The messages of expired in-flight records owned by queue `key`, in record
/// order.
pub open spec fn expired_msgs(
    recs: Seq<(ReceiveHandle, ReceivedMessage)>,
    key: Seq<char>,
    now: u64,
) -> Seq<Message>
    decreases recs.len(),
{
    if recs.len() == 0 {
        Seq::empty()
    } else {
        expired_msgs(recs.drop_last(), key, now) + if now > recs.last().1.expires
            && recs.last().1.queue_path@ == key {
            seq![recs.last().1.message]
        } else {
            Seq::empty()
        }
    }
}

/// The in-flight records whose visibility window has not yet elapsed.
pub open spec fn unexpired(
    recs: Seq<(ReceiveHandle, ReceivedMessage)>,
    now: u64,
) -> Seq<(ReceiveHandle, ReceivedMessage)>
    decreases recs.len(),
{
    if recs.len() == 0 {
        recs
    } else {
        unexpired(recs.drop_last(), now) + if now > recs.last().1.expires {
            Seq::empty()
        } else {
            seq![recs.last()]
        }
    }
}

/// Two lists with pointwise equal keys agree on every key lookup.
pub proof fn lemma_key_index_same_keys<K: View<V = Seq<char>>, T>(
    s1: Seq<(K, T)>,
    s2: Seq<(K, T)>,
    key: Seq<char>,
)
    requires
        s1.len() == s2.len(),
        forall|j: int| 0 <= j < s1.len() ==> s1[j].0@ == s2[j].0@,
    ensures
        key_index(s1, key) == key_index(s2, key),
    decreases s1.len(),
{
    if s1.len() > 0 {
        lemma_key_index_same_keys(s1.drop_first(), s2.drop_first(), key);
        assert(forall|j: int| 1 <= j < s1.len() ==> s1.drop_first()[j - 1] == s1[j]);
        assert(forall|j: int| 1 <= j < s2.len() ==> s2.drop_first()[j - 1] == s2[j]);
    }
}

/// Queue `j` after a sweep of `recs`: identity, attributes and bell kept,
/// and the first queue under its key has the expired messages of `recs` that
/// it owns appended in record order.
pub open spec fn queue_requeued_at(
    cur: Seq<(QueuePath, SQSQueue)>,
    qs: Seq<(QueuePath, SQSQueue)>,
    recs: Seq<(ReceiveHandle, ReceivedMessage)>,
    now: u64,
    j: int,
) -> bool {
    &&& cur[j].0 == qs[j].0
    &&& cur[j].1.name == qs[j].1.name
    &&& cur[j].1.attributes == qs[j].1.attributes
    &&& cur[j].1.bell == qs[j].1.bell
    &&& cur[j].1.messages@ == if j == key_index(qs, qs[j].0@) {
        qs[j].1.messages@ + expired_msgs(recs, qs[j].0@, now)
    } else {
        qs[j].1.messages@
    }
}

/// Every queue of `qs` stands in `cur` as `queue_requeued_at` describes.
pub open spec fn queues_requeued(
    cur: Seq<(QueuePath, SQSQueue)>,
    qs: Seq<(QueuePath, SQSQueue)>,
    recs: Seq<(ReceiveHandle, ReceivedMessage)>,
    now: u64,
) -> bool {
    &&& cur.len() == qs.len()
    &&& forall|j: int| 0 <= j < qs.len() ==> #[trigger] queue_requeued_at(cur, qs, recs, now, j)
}

/// Owns all queues, topics and in-flight delivery records, keyed by derived
/// identifiers; the single source of truth every operation works against.
pub struct State {
    pub account_id: String,
    pub region: String,
    pub endpoint_url: String,
    pub queues: Vec<(QueuePath, SQSQueue)>,
    pub topics: Vec<(TopicArn, SNSTopic)>,
    pub received_messages: Vec<(ReceiveHandle, ReceivedMessage)>,
}

impl State {
    pub fn new(port: u16, region: &str, account_id: &str) -> (r: Self)
        ensures
            r.account_id@ == account_id@,
            r.region@ == region@,
            r.endpoint_url@ == "http://localhost:"@ + crate::text::dec_digits(port as int),
            r.queues@ =~= Seq::<(QueuePath, SQSQueue)>::empty(),
            r.topics@ =~= Seq::<(TopicArn, SNSTopic)>::empty(),
            r.received_messages@ =~= Seq::<(ReceiveHandle, ReceivedMessage)>::empty(),
    {
        let mut endpoint_url = String::from_str("http://localhost:");
        let port_str = crate::text::u32_to_string(port as u32);
        endpoint_url.append(port_str.as_str());
        State {
            account_id: String::from_str(account_id),
            region: String::from_str(region),
            endpoint_url,
            queues: Vec::new(),
            topics: Vec::new(),
            received_messages: Vec::new(),
        }
    }

    /// The URL under which a queue of the given name is addressed.
    pub fn get_queue_url(&self, queue_name: &str) -> (r: String)
        ensures
            r@ == queue_url_of(self.endpoint_url@, self.account_id@, queue_name@),
    {
        let mut url = self.endpoint_url.clone();
        url.append("/");
        url.append(self.account_id.as_str());
        url.append("/");
        url.append(queue_name);
        url
    }

    /// The registry key derived from a queue URL or ARN.
    pub fn get_queue_path(&self, queue_url: &str) -> (r: QueuePath)
        ensures
            r@ == queue_path_of(queue_url@),
    {
        let n = queue_url.unicode_len();
        let is_arn = n >= 3 && queue_url.get_char(0) == 'a' && queue_url.get_char(1) == 'r'
            && queue_url.get_char(2) == 'n';
        proof {
            reveal_strlit("arn");
            if n >= 3 {
                if is_arn {
                    assert(queue_url@.take(3) =~= "arn"@);
                } else {
                    assert(queue_url@.take(3)[0] == queue_url@[0]);
                    assert(queue_url@.take(3)[1] == queue_url@[1]);
                    assert(queue_url@.take(3)[2] == queue_url@[2]);
                }
            }
        }
        if is_arn {
            QueuePath(last_segment_of(queue_url, ':'))
        } else {
            QueuePath(last_segment_of(queue_url, '/'))
        }
    }

    /// The ARN under which a topic of the given name is addressed.
    pub fn get_topic_arn(&self, topic_name: &str) -> (r: TopicArn)
        ensures
            r@ == topic_arn_of(self.region@, self.account_id@, topic_name@),
    {
        let mut arn = String::from_str("arn:aws:sns:");
        arn.append(self.region.as_str());
        arn.append(":");
        arn.append(self.account_id.as_str());
        arn.append(":");
        arn.append(topic_name);
        TopicArn(arn)
    }

    /// Index of the queue registered under `path`, if any.
    pub fn find_queue(&self, path: &QueuePath) -> (r: Option<usize>)
        ensures
            match r {
                Some(i) => i as int == key_index(self.queues@, path@) && i < self.queues@.len(),
                None => key_index(self.queues@, path@) == -1,
            },
    {
        let mut i: usize = 0;
        while i < self.queues.len()
            invariant
                i <= self.queues@.len(),
                forall|j: int| 0 <= j < i ==> self.queues@[j].0@ != path@,
            decreases self.queues@.len() - i,
        {
            if self.queues[i].0.0 == path.0 {
                proof {
                    lemma_key_index_unique(self.queues@, path@, i as int);
                }
                return Some(i);
            }
            i += 1;
        }
        proof {
            lemma_key_index(self.queues@, path@);
        }
        None
    }

    /// Index of the topic registered under `arn`, if any.
    pub fn find_topic(&self, arn: &TopicArn) -> (r: Option<usize>)
        ensures
            match r {
                Some(i) => i as int == key_index(self.topics@, arn@) && i < self.topics@.len(),
                None => key_index(self.topics@, arn@) == -1,
            },
    {
        let mut i: usize = 0;
        while i < self.topics.len()
            invariant
                i <= self.topics@.len(),
                forall|j: int| 0 <= j < i ==> self.topics@[j].0@ != arn@,
            decreases self.topics@.len() - i,
        {
            if self.topics[i].0.0 == arn.0 {
                proof {
                    lemma_key_index_unique(self.topics@, arn@, i as int);
                }
                return Some(i);
            }
            i += 1;
        }
        proof {
            lemma_key_index(self.topics@, arn@);
        }
        None
    }

    /// Index of the in-flight record under `handle`, if any.
    pub fn find_received(&self, handle: &ReceiveHandle) -> (r: Option<usize>)
        ensures
            match r {
                Some(i) => i as int == key_index(self.received_messages@, handle@) && i
                    < self.received_messages@.len(),
                None => key_index(self.received_messages@, handle@) == -1,
            },
    {
        let mut i: usize = 0;
        while i < self.received_messages.len()
            invariant
                i <= self.received_messages@.len(),
                forall|j: int| 0 <= j < i ==> self.received_messages@[j].0@ != handle@,
            decreases self.received_messages@.len() - i,
        {
            if self.received_messages[i].0.0 == handle.0 {
                proof {
                    lemma_key_index_unique(self.received_messages@, handle@, i as int);
                }
                return Some(i);
            }
            i += 1;
        }
        proof {
            lemma_key_index(self.received_messages@, handle@);
        }
        None
    }

    /// Register a queue under its derived path; when the path is already
    /// taken the registry is left unchanged and `false` comes back.
    pub fn add_queue(&mut self, queue: SQSQueue) -> (r: bool)
        ensures
            ({
                let key = queue_path_of(
                    queue_url_of(old(self).endpoint_url@, old(self).account_id@, queue.name@),
                );
                &&& r == !has_key(old(self).queues@, key)
                &&& (r ==> final(self).queues@.len() == old(self).queues@.len() + 1
                    && final(self).queues@.drop_last() == old(self).queues@ && final(self).queues@.last().0@ == key && final(self).queues@.last().1 == queue)
                &&& (!r ==> final(self).queues@ == old(self).queues@)
            }),
            final(self).account_id == old(self).account_id,
            final(self).region == old(self).region,
            final(self).endpoint_url == old(self).endpoint_url,
            final(self).topics == old(self).topics,
            final(self).received_messages == old(self).received_messages,
    {
        let url = self.get_queue_url(queue.name.as_str());
        let path = self.get_queue_path(url.as_str());
        match self.find_queue(&path) {
            Some(_) => {
                proof {
                    lemma_key_index(self.queues@, path@);
                }
                false
            },
            None => {
                self.queues.push((path, queue));
                proof {
                    assert(self.queues@.drop_last() =~= old(self).queues@);
                }
                true
            },
        }
    }

    /// Remove the queue registered under the given URL together with all its
    /// pending messages, and cascade-delete the in-flight records that
    /// reference it, so no dangling delivery entries stay behind.
    pub fn remove_queue(&mut self, queue_url: &str) -> (r: bool)
        ensures
            ({
                let key = queue_path_of(queue_url@);
                &&& r == has_key(old(self).queues@, key)
                &&& final(self).queues@ == remove_key(old(self).queues@, key)
                &&& final(self).received_messages@ == if r {
                    drop_queue_records(old(self).received_messages@, key)
                } else {
                    old(self).received_messages@
                }
            }),
            final(self).account_id == old(self).account_id,
            final(self).region == old(self).region,
            final(self).endpoint_url == old(self).endpoint_url,
            final(self).topics == old(self).topics,
    {
        let path = self.get_queue_path(queue_url);
        match self.find_queue(&path) {
            None => false,
            Some(i) => {
                self.queues.remove(i);
                let mut records: Vec<(ReceiveHandle, ReceivedMessage)> = Vec::new();
                core::mem::swap(&mut records, &mut self.received_messages);
                let ghost orig = records@;
                let ghost mut done: int = 0;
                while records.len() > 0
                    invariant
                        records@ =~= orig.skip(done),
                        0 <= done <= orig.len(),
                        self.received_messages@ =~= drop_queue_records(orig.take(done), path@),
                        self.queues@ == remove_key(old(self).queues@, queue_path_of(queue_url@)),
                        self.account_id == old(self).account_id,
                        self.region == old(self).region,
                        self.endpoint_url == old(self).endpoint_url,
                        self.topics == old(self).topics,
                        path@ == queue_path_of(queue_url@),
                    decreases records@.len(),
                {
                    proof {
                        let t = orig.take(done + 1);
                        assert(t.drop_last() =~= orig.take(done));
                        assert(t.last() == orig[done]);
                    }
                    let (h, rec) = records.remove(0);
                    if !(rec.queue_path.0 == path.0) {
                        self.received_messages.push((h, rec));
                    }
                    proof {
                        done = done + 1;
                        assert(records@ =~= orig.skip(done));
                        assert(self.received_messages@ =~= drop_queue_records(
                            orig.take(done),
                            path@,
                        ));
                    }
                }
                proof {
                    assert(orig.take(done) =~= orig);
                }
                true
            },
        }
    }

    /// Register a topic under its derived ARN; when the ARN is already taken
    /// the registry is left unchanged and `false` comes back.
    pub fn add_topic(&mut self, topic: SNSTopic) -> (r: bool)
        ensures
            ({
                let key = topic_arn_of(old(self).region@, old(self).account_id@, topic.name@);
                &&& r == !has_key(old(self).topics@, key)
                &&& (r ==> final(self).topics@.len() == old(self).topics@.len() + 1
                    && final(self).topics@.drop_last() == old(self).topics@ && final(self).topics@.last().0@ == key && final(self).topics@.last().1 == topic)
                &&& (!r ==> final(self).topics@ == old(self).topics@)
            }),
            final(self).account_id == old(self).account_id,
            final(self).region == old(self).region,
            final(self).endpoint_url == old(self).endpoint_url,
            final(self).queues == old(self).queues,
            final(self).received_messages == old(self).received_messages,
    {
        let arn = self.get_topic_arn(topic.name.as_str());
        match self.find_topic(&arn) {
            Some(_) => {
                proof {
                    lemma_key_index(self.topics@, arn@);
                }
                false
            },
            None => {
                self.topics.push((arn, topic));
                proof {
                    assert(self.topics@.drop_last() =~= old(self).topics@);
                }
                true
            },
        }
    }

    /// Remove the topic registered under `topic_arn` together with its
    /// subscriptions.
    pub fn remove_topic(&mut self, topic_arn: &TopicArn) -> (r: bool)
        ensures
            r == has_key(old(self).topics@, topic_arn@),
            final(self).topics@ == remove_key(old(self).topics@, topic_arn@),
            final(self).account_id == old(self).account_id,
            final(self).region == old(self).region,
            final(self).endpoint_url == old(self).endpoint_url,
            final(self).queues == old(self).queues,
            final(self).received_messages == old(self).received_messages,
    {
        match self.find_topic(topic_arn) {
            None => false,
            Some(i) => {
                self.topics.remove(i);
                true
            },
        }
    }

    /// Record one delivery: mint a fresh receipt handle and store the message
    /// as in flight until `timeout_seconds` from now.
    pub fn add_received_message(
        &mut self,
        message: Message,
        queue_path: QueuePath,
        timeout_seconds: u32,
    ) -> (r: ReceiveHandle)
        ensures
            r@.len() == 36,
            exists|rec: ReceivedMessage|
                rec.message == message && rec.queue_path == queue_path && rec.expires
                    >= timeout_seconds as u64 && final(self).received_messages@ == insert_entry(
                    old(self).received_messages@,
                    r,
                    rec,
                ),
            final(self).account_id == old(self).account_id,
            final(self).region == old(self).region,
            final(self).endpoint_url == old(self).endpoint_url,
            final(self).queues == old(self).queues,
            final(self).topics == old(self).topics,
    {
        let handle = ReceiveHandle::new();
        let rec_msg = ReceivedMessage::new(message, queue_path, timeout_seconds);
        let stored = handle.clone();
        let ghost rec_snapshot = rec_msg;
        match self.find_received(&handle) {
            Some(i) => {
                let _removed = self.received_messages.remove(i);
                self.received_messages.insert(i, (stored, rec_msg));
                proof {
                    assert(self.received_messages@ =~= insert_entry(
                        old(self).received_messages@,
                        handle,
                        rec_snapshot,
                    ));
                }
            },
            None => {
                self.received_messages.push((stored, rec_msg));
                proof {
                    assert(self.received_messages@ =~= insert_entry(
                        old(self).received_messages@,
                        handle,
                        rec_snapshot,
                    ));
                }
            },
        }
        handle
    }

    /// Return every expired in-flight message to the back of its owning
    /// queue and drop its record: the sweep that makes an undeleted message
    /// redeliverable once its visibility window has elapsed. The caller
    /// chooses the sweep policy by deciding when to run it (periodically, or
    /// before reading a queue). A record whose queue no longer exists is
    /// dropped without requeueing.
    pub fn requeue_expired(&mut self, now_seconds: u64)
        ensures
            final(self).received_messages@ == unexpired(old(self).received_messages@, now_seconds),
            queues_requeued(
                final(self).queues@,
                old(self).queues@,
                old(self).received_messages@,
                now_seconds,
            ),
            final(self).account_id == old(self).account_id,
            final(self).region == old(self).region,
            final(self).endpoint_url == old(self).endpoint_url,
            final(self).topics == old(self).topics,
    {
        let mut records: Vec<(ReceiveHandle, ReceivedMessage)> = Vec::new();
        core::mem::swap(&mut records, &mut self.received_messages);
        let ghost orig = records@;
        let ghost qs = old(self).queues@;
        let ghost mut done: int = 0;
        while records.len() > 0
            invariant
                records@ =~= orig.skip(done),
                0 <= done <= orig.len(),
                orig == old(self).received_messages@,
                qs == old(self).queues@,
                self.received_messages@ =~= unexpired(orig.take(done), now_seconds),
                queues_requeued(self.queues@, qs, orig.take(done), now_seconds),
                self.account_id == old(self).account_id,
                self.region == old(self).region,
                self.endpoint_url == old(self).endpoint_url,
                self.topics == old(self).topics,
            decreases records@.len(),
        {
            let ghost cur = orig[done];
            proof {
                let t = orig.take(done + 1);
                assert(t.drop_last() =~= orig.take(done));
                assert(t.last() == cur);
            }
            let (h, rec) = records.remove(0);
            proof {
                assert((h, rec) == cur);
            }
            let ghost qs_before = self.queues@;
            let ghost done0 = done;
            if now_seconds > rec.expires {
                match self.find_queue(&rec.queue_path) {
                    Some(qi) => {
                        proof {
                            lemma_key_index(qs_before, cur.1.queue_path@);
                            assert forall|j: int|
                                0 <= j < qs_before.len() implies qs_before[j].0@ == qs[j].0@ by {
                                assert(queue_requeued_at(
                                    qs_before,
                                    qs,
                                    orig.take(done0),
                                    now_seconds,
                                    j,
                                ));
                            }
                            lemma_key_index_same_keys(qs_before, qs, cur.1.queue_path@);
                            lemma_key_index(qs, cur.1.queue_path@);
                        }
                        let entry = self.queues.remove(qi);
                        let (pk, mut q) = entry;
                        q.messages.push_back(rec.message);
                        self.queues.insert(qi, (pk, q));
                        proof {
                            assert(self.queues@ =~= qs_before.update(
                                qi as int,
                                (qs_before[qi as int].0, self.queues@[qi as int].1),
                            ));
                            done = done + 1;
                            assert(self.queues@[qi as int].1.messages@ == qs_before[
                                qi as int
                            ].1.messages@.push(cur.1.message));
                            assert forall|j: int| 0 <= j < qs.len() implies #[trigger] queue_requeued_at(
                                self.queues@,
                                qs,
                                orig.take(done),
                                now_seconds,
                                j,
                            ) by {
                                assert(queue_requeued_at(
                                    qs_before,
                                    qs,
                                    orig.take(done0),
                                    now_seconds,
                                    j,
                                ));
                                if j == qi as int {
                                    assert(qs[j].0@ == cur.1.queue_path@);
                                    assert(j == key_index(qs, qs[j].0@));
                                    assert(expired_msgs(orig.take(done), qs[j].0@, now_seconds)
                                        == expired_msgs(orig.take(done0), qs[j].0@, now_seconds)
                                        + seq![cur.1.message]);
                                    assert(qs[j].1.messages@ + expired_msgs(
                                        orig.take(done),
                                        qs[j].0@,
                                        now_seconds,
                                    ) =~= (qs[j].1.messages@ + expired_msgs(
                                        orig.take(done0),
                                        qs[j].0@,
                                        now_seconds,
                                    )).push(cur.1.message));
                                } else {
                                    assert(self.queues@[j] == qs_before[j]);
                                    if qs[j].0@ != cur.1.queue_path@ {
                                        assert(expired_msgs(orig.take(done), qs[j].0@, now_seconds)
                                            == expired_msgs(
                                            orig.take(done0),
                                            qs[j].0@,
                                            now_seconds,
                                        ) + Seq::<Message>::empty());
                                        assert(expired_msgs(orig.take(done0), qs[j].0@, now_seconds)
                                            + Seq::<Message>::empty() =~= expired_msgs(
                                            orig.take(done0),
                                            qs[j].0@,
                                            now_seconds,
                                        ));
                                    } else {
                                        assert(key_index(qs, qs[j].0@) == qi as int);
                                        assert(j != key_index(qs, qs[j].0@));
                                    }
                                }
                            }
                            assert(self.received_messages@ =~= unexpired(
                                orig.take(done),
                                now_seconds,
                            ));
                        }
                    },
                    None => {
                        proof {
                            lemma_key_index(qs_before, cur.1.queue_path@);
                            assert forall|j: int|
                                0 <= j < qs_before.len() implies qs_before[j].0@ == qs[j].0@ by {
                                assert(queue_requeued_at(
                                    qs_before,
                                    qs,
                                    orig.take(done0),
                                    now_seconds,
                                    j,
                                ));
                            }
                            lemma_key_index_same_keys(qs_before, qs, cur.1.queue_path@);
                            lemma_key_index(qs, cur.1.queue_path@);
                            done = done + 1;
                            assert forall|j: int| 0 <= j < qs.len() implies #[trigger] queue_requeued_at(
                                self.queues@,
                                qs,
                                orig.take(done),
                                now_seconds,
                                j,
                            ) by {
                                assert(queue_requeued_at(
                                    qs_before,
                                    qs,
                                    orig.take(done0),
                                    now_seconds,
                                    j,
                                ));
                                assert(qs[j].0@ != cur.1.queue_path@);
                                assert(expired_msgs(orig.take(done), qs[j].0@, now_seconds)
                                    == expired_msgs(orig.take(done0), qs[j].0@, now_seconds)
                                    + Seq::<Message>::empty());
                                assert(expired_msgs(orig.take(done0), qs[j].0@, now_seconds)
                                    + Seq::<Message>::empty() =~= expired_msgs(
                                    orig.take(done0),
                                    qs[j].0@,
                                    now_seconds,
                                ));
                            }
                            assert(self.received_messages@ =~= unexpired(
                                orig.take(done),
                                now_seconds,
                            ));
                        }
                    },
                }
            } else {
                self.received_messages.push((h, rec));
                proof {
                    done = done + 1;
                    assert(self.received_messages@ =~= unexpired(orig.take(done), now_seconds));
                    assert forall|j: int| 0 <= j < qs.len() implies #[trigger] queue_requeued_at(
                        self.queues@,
                        qs,
                        orig.take(done),
                        now_seconds,
                        j,
                    ) by {
                        assert(queue_requeued_at(self.queues@, qs, orig.take(done0), now_seconds, j));
                        assert(expired_msgs(orig.take(done), qs[j].0@, now_seconds)
                            == expired_msgs(orig.take(done0), qs[j].0@, now_seconds)
                            + Seq::<Message>::empty());
                        assert(expired_msgs(orig.take(done0), qs[j].0@, now_seconds)
                            + Seq::<Message>::empty() =~= expired_msgs(
                            orig.take(done0),
                            qs[j].0@,
                            now_seconds,
                        ));
                    }
                }
            }
            proof {
                assert(records@ =~= orig.skip(done));
            }
        }
        proof {
            assert(orig.take(done) =~= orig);
        }
    }

    /// Forget the in-flight record under `handle`; an unknown handle is a
    /// silent no-op, so delete is idempotent.
    pub fn delete_received_message(&mut self, handle: &ReceiveHandle)
        ensures
            final(self).received_messages@ == remove_key(old(self).received_messages@, handle@),
            final(self).account_id == old(self).account_id,
            final(self).region == old(self).region,
            final(self).endpoint_url == old(self).endpoint_url,
            final(self).queues == old(self).queues,
            final(self).topics == old(self).topics,
    {
        match self.find_received(handle) {
            None => {},
            Some(i) => {
                self.received_messages.remove(i);
            },
        }
    }

    /// Restart the visibility window of the in-flight record under `handle`;
    /// an unknown handle is a silent no-op.
    pub fn change_received_visibility(&mut self, handle: &ReceiveHandle, visibility_timeout: u32)
        ensures
            !has_key(old(self).received_messages@, handle@) ==> final(self).received_messages@
                == old(self).received_messages@,
            has_key(old(self).received_messages@, handle@) ==> ({
                let i = key_index(old(self).received_messages@, handle@);
                &&& final(self).received_messages@.len() == old(self).received_messages@.len()
                &&& forall|j: int|
                    0 <= j < old(self).received_messages@.len() && j != i ==> final(self).received_messages@[j] == old(self).received_messages@[j]
                &&& final(self).received_messages@[i].0 == old(self).received_messages@[i].0
                &&& final(self).received_messages@[i].1.message == old(self).received_messages@[i].1.message
                &&& final(self).received_messages@[i].1.queue_path == old(self).received_messages@[i].1.queue_path
                &&& final(self).received_messages@[i].1.expires >= visibility_timeout as u64
            }),
            final(self).account_id == old(self).account_id,
            final(self).region == old(self).region,
            final(self).endpoint_url == old(self).endpoint_url,
            final(self).queues == old(self).queues,
            final(self).topics == old(self).topics,
    {
        match self.find_received(handle) {
            None => {},
            Some(i) => {
                let mut entry = self.received_messages.remove(i);
                entry.1.set_visibility_timeout(visibility_timeout);
                self.received_messages.insert(i, entry);
            },
        }
    }

}

/// The XML element a subscription is listed as.
pub open spec fn subscription_xml(
    topic_arn: Seq<char>,
    protocol: Seq<char>,
    arn: Seq<char>,
    owner: Seq<char>,
    endpoint: Seq<char>,
) -> Seq<char> {
    "<member><TopicArn>"@ + escape_seq(topic_arn) + "</TopicArn><Protocol>"@ + escape_seq(protocol)
        + "</Protocol><SubscriptionArn>"@ + escape_seq(arn) + "</SubscriptionArn><Owner>"@
        + escape_seq(owner) + "</Owner><Endpoint>"@ + escape_seq(endpoint)
        + "</Endpoint></member>"@
}

/// `subscription_xml` applied to one subscription's fields.
pub open spec fn subscription_xml_of(s: SNSSubscription) -> Seq<char> {
    subscription_xml(s.topic_arn@, s.protocol@, s.arn@, s.owner@, s.endpoint@)
}

impl SNSSubscription {
    /// The XML element this subscription is listed as.
    pub fn get_subscription_xml(&self) -> (r: String)
        ensures
            r@ == subscription_xml_of(*self),
    {
        let mut r = String::from_str("<member><TopicArn>");
        let e1 = escape_xml(self.topic_arn.as_str());
        r.append(e1.as_str());
        r.append("</TopicArn><Protocol>");
        let e2 = escape_xml(self.protocol.as_str());
        r.append(e2.as_str());
        r.append("</Protocol><SubscriptionArn>");
        let e3 = escape_xml(self.arn.as_str());
        r.append(e3.as_str());
        r.append("</SubscriptionArn><Owner>");
        let e4 = escape_xml(self.owner.as_str());
        r.append(e4.as_str());
        r.append("</Owner><Endpoint>");
        let e5 = escape_xml(self.endpoint.as_str());
        r.append(e5.as_str());
        r.append("</Endpoint></member>");
        r
    }
}

// ---------------------------------------------------------------------------
// In-flight record.
// ---------------------------------------------------------------------------
/// A delivered-but-unsettled message: the wrapped message, its owning queue,
/// and the Unix second at which its visibility window elapses.
pub struct ReceivedMessage {
    pub message: Message,
    pub queue_path: QueuePath,
    pub expires: u64,
}

impl ReceivedMessage {
    /// A fresh in-flight record expiring `timeout_seconds` from now. The
    /// clock is an outside call, so only what holds of every reading is
    /// stated: the window reaches at least `timeout_seconds` past the epoch,
    /// and so never elapses before the timeout has passed.
    pub fn new(message: Message, queue_path: QueuePath, timeout_seconds: u32) -> (r: Self)
        ensures
            r.message == message,
            r.queue_path == queue_path,
            r.expires >= timeout_seconds as u64,
    {
        let now = now_seconds();
        let expires = if now <= u64::MAX - timeout_seconds as u64 {
            now + timeout_seconds as u64
        } else {
            u64::MAX
        };
        ReceivedMessage { message, queue_path, expires }
    }

    /// Whether the visibility window has elapsed at `now_seconds`.
    pub fn has_expired(&self, now_seconds: u64) -> (r: bool)
        ensures
            r == (now_seconds > self.expires),
    {
        now_seconds > self.expires
    }

    /// Restart the visibility window `visibility_timeout` seconds from now:
    /// the window is recomputed from the clock, not extended, and reaches at
    /// least `visibility_timeout` past the epoch.
    pub fn set_visibility_timeout(&mut self, visibility_timeout: u32)
        ensures
            final(self).message == old(self).message,
            final(self).queue_path == old(self).queue_path,
            final(self).expires >= visibility_timeout as u64,
    {
        let now = now_seconds();
        self.expires = if now <= u64::MAX - visibility_timeout as u64 {
            now + visibility_timeout as u64
        } else {
            u64::MAX
        };
    }
}

} // verus!
